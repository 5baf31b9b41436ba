//! The verifier's side: pass a received object through, and check each of its
//! claims against the accumulator that it carries.

use crate::accumulator::{
    accumulator_from_text, deserialize_accumulator, deserialize_pk, deserialize_witness,
    generate_params, membership_holds, params_valid, public_key_from_text, scalar_from_str,
    scalar_of_str, seeded_params, witness_from_text, CodecError, PositiveAccumulator, PublicKey,
    SetupParams,
};
use crate::csd::csd_encoder::{ACCUMULATOR_KEY, PARAM_SEED_KEY, PK_KEY, SD_ALG};
use crate::csd::csd_error::CsdError;
use crate::json::{
    has_key, lemma_key_index, value_of, EntriesView, JsonMap, JsonValue, ValueView,
};
use crate::text::{joined, parse_u64, parsed_u64, str_equal, texts};
use vstd::prelude::*;

verus! {

/// Whether an array stands in `value`: the value is one, or it is an object
/// with a field in which one stands.
pub open spec fn array_within(value: ValueView) -> bool
    decreases value,
{
    match value {
        ValueView::Array(_) => true,
        ValueView::Object(entries) => array_in_fields(entries),
        _ => false,
    }
}

/// Whether an array stands in one of the fields.
pub open spec fn array_in_fields(entries: EntriesView) -> bool
    decreases entries,
{
    exists|i: int| 0 <= i < entries.len() && array_within(#[trigger] entries[i].1)
}

/// The text of a value that is a string.
pub open spec fn text_of(value: Option<ValueView>) -> Option<Seq<char>> {
    match value {
        Some(ValueView::Text(t)) => Some(t),
        _ => None,
    }
}

/// What an envelope carries: the accumulator value, the public key, the
/// parameters of its seed, and the claims, each with the transport string of
/// its witness.
pub struct EnvelopeView {
    pub accumulator: Seq<u8>,
    pub public_key: Seq<u8>,
    pub params: Seq<u8>,
    pub claims: Seq<(Seq<char>, Seq<char>)>,
}

/// Why an object is no envelope: a control field is missing or has the wrong
/// shape, or a transport string is refused.
pub enum EnvelopeFault {
    Unspecified(Seq<char>),
    Deserialization(Seq<char>),
}

/// The sentence for a transport string of `what` that is refused.
pub open spec fn codec_message(what: Seq<char>, e: CodecError) -> Seq<char> {
    match e {
        CodecError::InvalidBase64 => what + " is not base64 text"@,
        CodecError::InvalidFormat => what + " is not the canonical encoding of a point"@,
    }
}

/// The place of the first field whose value is no string; the number of
/// fields where every value is one.
pub open spec fn first_non_text(entries: EntriesView) -> int
    decreases entries.len(),
{
    if entries.len() == 0 {
        0
    } else if !(entries[0].1 is Text) {
        0
    } else {
        1 + first_non_text(entries.drop_first())
    }
}

/// The fields as claims: each name with the text of its value.
pub open spec fn claims_of(entries: EntriesView) -> Seq<(Seq<char>, Seq<char>)> {
    Seq::new(entries.len(), |i: int| (entries[i].0, entries[i].1->Text_0))
}

/// The fields that bear no control field's name, in their order: the claims.
pub open spec fn claim_fields(entries: EntriesView) -> EntriesView
    decreases entries.len(),
{
    if entries.len() == 0 {
        Seq::empty()
    } else if is_control_key(entries.last().0) {
        claim_fields(entries.drop_last())
    } else {
        claim_fields(entries.drop_last()).push(entries.last())
    }
}

/// The envelope that an object is, or why it is none. The control fields are
/// asked for in turn: the accumulator, the parameter seed, the public key,
/// the algorithm tag. Each has to be there and to be a string; the seed has to
/// write a number whose parameters are valid, and the key and the accumulator
/// have to be read from their strings. The other fields are the claims, each
/// of which has to be a string.
pub open spec fn envelope_of(entries: EntriesView) -> Result<EnvelopeView, EnvelopeFault> {
    let e4 = claim_fields(entries);
    let accumulator = text_of(value_of(entries, ACCUMULATOR_KEY@));
    let seed = text_of(value_of(entries, PARAM_SEED_KEY@));
    let public_key = text_of(value_of(entries, PK_KEY@));
    if !has_key(entries, ACCUMULATOR_KEY@) {
        Err(EnvelopeFault::Unspecified("No accumulator found!"@))
    } else if accumulator is None {
        Err(EnvelopeFault::Unspecified("Accumulator value found is not a string!"@))
    } else if !has_key(entries, PARAM_SEED_KEY@) {
        Err(EnvelopeFault::Unspecified("No param seed found!"@))
    } else if seed is None {
        Err(EnvelopeFault::Unspecified("Param seed value found is not a string!"@))
    } else if parsed_u64(seed->0) is None {
        Err(
            EnvelopeFault::Unspecified(
                "Param seed value is a string but can't be converted to u64!"@,
            ),
        )
    } else if !params_valid(seeded_params(parsed_u64(seed->0)->0)) {
        Err(EnvelopeFault::Unspecified("Parameters of the seed are not valid!"@))
    } else if !has_key(entries, PK_KEY@) {
        Err(EnvelopeFault::Unspecified("No public key found!"@))
    } else if public_key is None {
        Err(EnvelopeFault::Unspecified("Public key value found is not a string!"@))
    } else if public_key_from_text(public_key->0) is Err {
        Err(
            EnvelopeFault::Deserialization(
                codec_message("Public key"@, public_key_from_text(public_key->0)->Err_0),
            ),
        )
    } else if !has_key(entries, SD_ALG@) {
        Err(EnvelopeFault::Unspecified("No Selective Disclosure algorithm found!"@))
    } else if text_of(value_of(entries, SD_ALG@)) is None {
        Err(
            EnvelopeFault::Unspecified(
                "Selective Disclosure algorithm value found is not a string!"@,
            ),
        )
    } else if accumulator_from_text(accumulator->0) is Err {
        Err(
            EnvelopeFault::Deserialization(
                codec_message("Accumulator"@, accumulator_from_text(accumulator->0)->Err_0),
            ),
        )
    } else if first_non_text(e4) < e4.len() {
        Err(
            EnvelopeFault::Unspecified(
                "Witness of ["@ + e4[first_non_text(e4)].0 + "] not a string"@,
            ),
        )
    } else {
        Ok(
            EnvelopeView {
                accumulator: accumulator_from_text(accumulator->0)->Ok_0,
                public_key: public_key_from_text(public_key->0)->Ok_0,
                params: seeded_params(parsed_u64(seed->0)->0),
                claims: claims_of(e4),
            },
        )
    }
}

/// Whether `key` is the name of one of the four control fields.
pub open spec fn is_control_key(key: Seq<char>) -> bool {
    key == ACCUMULATOR_KEY@ || key == PK_KEY@ || key == PARAM_SEED_KEY@ || key == SD_ALG@
}

/// The claims as fields: each name with its witness string as the value.
pub open spec fn claim_entries(claims: Seq<(Seq<char>, Seq<char>)>) -> EntriesView {
    Seq::new(claims.len(), |i: int| (claims[i].0, ValueView::Text(claims[i].1)))
}

/// The fields of an envelope in the order in which it is issued: the
/// accumulator, the public key, the parameter seed, the algorithm tag, then
/// the claims.
pub open spec fn envelope_entries(
    accumulator: Seq<char>,
    public_key: Seq<char>,
    seed: Seq<char>,
    alg: ValueView,
    claims: Seq<(Seq<char>, Seq<char>)>,
) -> EntriesView {
    seq![
        (ACCUMULATOR_KEY@, ValueView::Text(accumulator)),
        (PK_KEY@, ValueView::Text(public_key)),
        (PARAM_SEED_KEY@, ValueView::Text(seed)),
        (SD_ALG@, alg),
    ] + claim_entries(claims)
}

/// Whether an object is an envelope of which every claim verifies.
pub open spec fn validates(entries: EntriesView) -> bool {
    envelope_of(entries) matches Ok(env) && all_verify(env)
}

/// The names of the control fields differ from each other.
pub proof fn lemma_control_keys_differ()
    ensures
        ACCUMULATOR_KEY@ != PK_KEY@,
        ACCUMULATOR_KEY@ != PARAM_SEED_KEY@,
        ACCUMULATOR_KEY@ != SD_ALG@,
        PK_KEY@ != PARAM_SEED_KEY@,
        PK_KEY@ != SD_ALG@,
        PARAM_SEED_KEY@ != SD_ALG@,
{
    reveal_strlit("accumulator");
    reveal_strlit("pk");
    reveal_strlit("param_seed");
    reveal_strlit("_sd_alg");
    assert(ACCUMULATOR_KEY@.len() == 11);
    assert(PK_KEY@.len() == 2);
    assert(PARAM_SEED_KEY@.len() == 10);
    assert(SD_ALG@.len() == 7);
}

/// The claims of fields are no more than the claims of more fields: those of
/// the first `k` fields come first among those of all.
pub proof fn lemma_claim_fields_prefix(entries: EntriesView, k: int)
    requires
        0 <= k <= entries.len(),
    ensures
        claim_fields(entries.take(k)).len() <= claim_fields(entries).len(),
        claim_fields(entries).take(claim_fields(entries.take(k)).len() as int) == claim_fields(
            entries.take(k),
        ),
    decreases entries.len(),
{
    if k == entries.len() {
        assert(entries.take(k) == entries);
        assert(claim_fields(entries).take(claim_fields(entries).len() as int) == claim_fields(
            entries,
        ));
    } else {
        let front = entries.drop_last();
        assert(front.take(k) == entries.take(k));
        lemma_claim_fields_prefix(front, k);
        let some = claim_fields(entries.take(k));
        if !is_control_key(entries.last().0) {
            assert(claim_fields(entries).take(some.len() as int) =~= claim_fields(front).take(
                some.len() as int,
            ));
        }
    }
}

/// Fields in the order of issue, with a seed of valid parameters, a tag that
/// is a string, strings that can be read and claims that bear no control
/// field's name, are the envelope of those parts.
pub proof fn lemma_envelope_of_entries(
    accumulator: Seq<char>,
    public_key: Seq<char>,
    seed: Seq<char>,
    alg: ValueView,
    claims: Seq<(Seq<char>, Seq<char>)>,
)
    requires
        forall|i: int| 0 <= i < claims.len() ==> !is_control_key((#[trigger] claims[i]).0),
        parsed_u64(seed) is Some,
        params_valid(seeded_params(parsed_u64(seed)->0)),
        alg is Text,
        public_key_from_text(public_key) is Ok,
        accumulator_from_text(accumulator) is Ok,
    ensures
        envelope_of(envelope_entries(accumulator, public_key, seed, alg, claims)) == Ok::<
            EnvelopeView,
            EnvelopeFault,
        >(
            EnvelopeView {
                accumulator: accumulator_from_text(accumulator)->Ok_0,
                public_key: public_key_from_text(public_key)->Ok_0,
                params: seeded_params(parsed_u64(seed)->0),
                claims: claims,
            },
        ),
{
    lemma_control_keys_differ();
    let e0 = envelope_entries(accumulator, public_key, seed, alg, claims);
    let fields = claim_entries(claims);
    lemma_key_index(e0, ACCUMULATOR_KEY@, 0);
    lemma_key_index(e0, PK_KEY@, 1);
    lemma_key_index(e0, PARAM_SEED_KEY@, 2);
    lemma_key_index(e0, SD_ALG@, 3);
    lemma_claims_of_issue(accumulator, public_key, seed, alg, claims);
    lemma_first_non_text(fields, fields.len() as int);
    assert(claims_of(fields) =~= claims);
}

/// Among fields in the order of issue, the claims are those that came as
/// claims.
pub proof fn lemma_claims_of_issue(
    accumulator: Seq<char>,
    public_key: Seq<char>,
    seed: Seq<char>,
    alg: ValueView,
    claims: Seq<(Seq<char>, Seq<char>)>,
)
    requires
        forall|i: int| 0 <= i < claims.len() ==> !is_control_key((#[trigger] claims[i]).0),
    ensures
        claim_fields(envelope_entries(accumulator, public_key, seed, alg, claims)) == claim_entries(
            claims,
        ),
    decreases claims.len(),
{
    let e0 = envelope_entries(accumulator, public_key, seed, alg, claims);
    if claims.len() == 0 {
        let c4 = e0;
        let c3 = c4.drop_last();
        let c2 = c3.drop_last();
        let c1 = c2.drop_last();
        assert(c4.last().0 == SD_ALG@);
        assert(c3.last().0 == PARAM_SEED_KEY@);
        assert(c2.last().0 == PK_KEY@);
        assert(c1.last().0 == ACCUMULATOR_KEY@);
        assert(c1.drop_last().len() == 0);
        assert(claim_fields(c4) == claim_fields(c3));
        assert(claim_fields(c3) == claim_fields(c2));
        assert(claim_fields(c2) == claim_fields(c1));
        assert(claim_fields(c1) == claim_fields(c1.drop_last()));
        assert(claim_fields(e0) =~= claim_entries(claims));
    } else {
        let front = claims.drop_last();
        assert forall|i: int| 0 <= i < front.len() implies !is_control_key(
            (#[trigger] front[i]).0,
        ) by {
            assert(front[i] == claims[i]);
        }
        lemma_claims_of_issue(accumulator, public_key, seed, alg, front);
        let before = envelope_entries(accumulator, public_key, seed, alg, front);
        assert(e0.drop_last() =~= before);
        assert(e0.last() == claim_entries(claims).last());
        assert(claims[claims.len() - 1] == claims.last());
        assert(e0.last().0 == claims.last().0);
        assert(claim_fields(e0) == claim_fields(before).push(e0.last()));
        assert(claim_entries(front).push(e0.last()) =~= claim_entries(claims));
    }
}

/// Whether the error `e` tells the fault `fault`.
pub open spec fn tells(e: CsdError, fault: EnvelopeFault) -> bool {
    match fault {
        EnvelopeFault::Unspecified(m) => e matches CsdError::Unspecified(s) && s@ == m,
        EnvelopeFault::Deserialization(m) => e matches CsdError::DeserializationError(s) && s@ == m,
    }
}

/// Whether the claim `key` is shown to be in the accumulator by the witness
/// that `witness` writes. A string that writes no witness shows nothing.
pub open spec fn claim_verifies(
    accumulator: Seq<u8>,
    public_key: Seq<u8>,
    params: Seq<u8>,
    key: Seq<char>,
    witness: Seq<char>,
) -> bool {
    witness_from_text(witness) matches Ok(w) && membership_holds(
        accumulator,
        scalar_of_str(key),
        w,
        public_key,
        params,
    )
}

/// The names of those of `claims` that do not verify in the envelope, in
/// their order.
pub open spec fn failing_keys(env: EnvelopeView, claims: Seq<(Seq<char>, Seq<char>)>) -> Seq<
    Seq<char>,
>
    decreases claims.len(),
{
    if claims.len() == 0 {
        Seq::empty()
    } else {
        let rest = failing_keys(env, claims.drop_last());
        if claim_verifies(
            env.accumulator,
            env.public_key,
            env.params,
            claims.last().0,
            claims.last().1,
        ) {
            rest
        } else {
            rest.push(claims.last().0)
        }
    }
}

/// Whether every claim of the envelope verifies.
pub open spec fn all_verify(env: EnvelopeView) -> bool {
    forall|i: int|
        0 <= i < env.claims.len() ==> claim_verifies(
            env.accumulator,
            env.public_key,
            env.params,
            (#[trigger] env.claims[i]).0,
            env.claims[i].1,
        )
}

/// No claim fails exactly when every claim verifies.
pub proof fn lemma_none_fails(env: EnvelopeView, claims: Seq<(Seq<char>, Seq<char>)>)
    ensures
        failing_keys(env, claims).len() == 0 <==> forall|i: int|
            0 <= i < claims.len() ==> claim_verifies(
                env.accumulator,
                env.public_key,
                env.params,
                (#[trigger] claims[i]).0,
                claims[i].1,
            ),
    decreases claims.len(),
{
    if claims.len() > 0 {
        let front = claims.drop_last();
        lemma_none_fails(env, front);
        if failing_keys(env, claims).len() == 0 {
            assert forall|i: int| 0 <= i < claims.len() implies claim_verifies(
                env.accumulator,
                env.public_key,
                env.params,
                (#[trigger] claims[i]).0,
                claims[i].1,
            ) by {
                if i < claims.len() - 1 {
                    assert(front[i] == claims[i]);
                }
            }
        } else {
            if forall|i: int|
                0 <= i < claims.len() ==> claim_verifies(
                    env.accumulator,
                    env.public_key,
                    env.params,
                    (#[trigger] claims[i]).0,
                    claims[i].1,
                ) {
                assert forall|i: int| 0 <= i < front.len() implies claim_verifies(
                    env.accumulator,
                    env.public_key,
                    env.params,
                    (#[trigger] front[i]).0,
                    front[i].1,
                ) by {
                    assert(front[i] == claims[i]);
                }
                assert(claims.last() == claims[claims.len() - 1]);
            }
        }
    }
}

/// The place of the first field whose value is no string is the one before
/// which every value is a string.
pub proof fn lemma_first_non_text(entries: EntriesView, i: int)
    requires
        0 <= i <= entries.len(),
        forall|j: int| 0 <= j < i ==> (#[trigger] entries[j]).1 is Text,
        i < entries.len() ==> !(entries[i].1 is Text),
    ensures
        first_non_text(entries) == i,
    decreases entries.len(),
{
    if i > 0 {
        let rest = entries.drop_first();
        assert forall|j: int| 0 <= j < i - 1 implies (#[trigger] rest[j]).1 is Text by {
            assert(rest[j] == entries[j + 1]);
        }
        lemma_first_non_text(rest, i - 1);
    }
}

/// An envelope whose control fields were read: the accumulator value, the
/// public key, the parameters, and the claims with their witness strings.
pub struct Envelope {
    pub accumulator: PositiveAccumulator,
    pub public_key: PublicKey,
    pub params: SetupParams,
    pub claims: Vec<(String, String)>,
}

impl View for Envelope {
    type V = EnvelopeView;

    open spec fn view(&self) -> EnvelopeView {
        EnvelopeView {
            accumulator: self.accumulator@,
            public_key: self.public_key@,
            params: self.params@,
            claims: Seq::new(
                self.claims@.len(),
                |i: int| (self.claims@[i].0@, self.claims@[i].1@),
            ),
        }
    }
}

/// Whether the witness that `witness` writes shows the claim `key` to be in
/// `accumulator`. It answers `false`, never fails, on a string that writes no
/// witness.
pub fn verify_claim(
    accumulator: &PositiveAccumulator,
    public_key: &PublicKey,
    params: &SetupParams,
    key: &str,
    witness: &str,
) -> (r: bool)
    ensures
        r == claim_verifies(accumulator@, public_key@, params@, key@, witness@),
{
    match deserialize_witness(witness.to_owned()) {
        Ok(w) => {
            let element = scalar_from_str(key);
            accumulator.verify_membership(&element, &w, public_key, params)
        },
        Err(_) => false,
    }
}

impl Envelope {
    /// Reads the control fields of `object`, in this order: accumulator,
    /// parameter seed, public key, algorithm tag. The first that is missing
    /// or has the wrong shape is reported, and so is a claim whose value is no
    /// string. No witness is read and no claim is checked here.
    #[verifier::loop_isolation(false)]
    pub fn open(object: JsonMap) -> (r: Result<Envelope, CsdError>)
        ensures
            match r {
                Ok(env) => envelope_of(object@) == Ok::<EnvelopeView, EnvelopeFault>(env@),
                Err(e) => envelope_of(object@) matches Err(fault) && tells(e, fault),
            },
    {
        let accumulator_text = match object.get(ACCUMULATOR_KEY) {
            None => {
                return Err(CsdError::Unspecified("No accumulator found!".to_owned()));
            },
            Some(JsonValue::Text(val)) => val.clone(),
            Some(_) => {
                return Err(
                    CsdError::Unspecified("Accumulator value found is not a string!".to_owned()),
                );
            },
        };
        let seed_text = match object.get(PARAM_SEED_KEY) {
            None => {
                return Err(CsdError::Unspecified("No param seed found!".to_owned()));
            },
            Some(JsonValue::Text(val)) => val.clone(),
            Some(_) => {
                return Err(
                    CsdError::Unspecified("Param seed value found is not a string!".to_owned()),
                );
            },
        };
        let seed = match parse_u64(seed_text.as_str()) {
            Some(seed) => seed,
            None => {
                return Err(
                    CsdError::Unspecified(
                        "Param seed value is a string but can't be converted to u64!".to_owned(),
                    ),
                );
            },
        };
        let params = generate_params(seed);
        if !params.is_valid() {
            return Err(CsdError::Unspecified("Parameters of the seed are not valid!".to_owned()));
        }
        let pk_text = match object.get(PK_KEY) {
            None => {
                return Err(CsdError::Unspecified("No public key found!".to_owned()));
            },
            Some(JsonValue::Text(val)) => val.clone(),
            Some(_) => {
                return Err(
                    CsdError::Unspecified("Public key value found is not a string!".to_owned()),
                );
            },
        };
        let public_key = match deserialize_pk(pk_text) {
            Ok(pk) => pk,
            Err(e) => {
                return Err(CsdError::DeserializationError(codec_sentence("Public key", e)));
            },
        };
        match object.get(SD_ALG) {
            None => {
                return Err(
                    CsdError::Unspecified("No Selective Disclosure algorithm found!".to_owned()),
                );
            },
            Some(JsonValue::Text(_)) => {},
            Some(_) => {
                return Err(
                    CsdError::Unspecified(
                        "Selective Disclosure algorithm value found is not a string!".to_owned(),
                    ),
                );
            },
        }
        let accumulator = match deserialize_accumulator(accumulator_text) {
            Ok(a) => a,
            Err(e) => {
                return Err(CsdError::DeserializationError(codec_sentence("Accumulator", e)));
            },
        };
        let ghost all = object@;
        let ghost e4 = claim_fields(all);
        let fields = object.fields();
        let mut claims: Vec<(String, String)> = Vec::new();
        let mut i: usize = 0;
        while i < fields.len()
            invariant
                i <= fields@.len() == all.len(),
                claims@.len() == claim_fields(all.take(i as int)).len(),
                forall|j: int|
                    0 <= j < claims@.len() ==> (#[trigger] claim_fields(all.take(i as int))[j]).1
                        is Text,
                forall|j: int|
                    0 <= j < claims@.len() ==> (#[trigger] claims@[j]).0@ == claim_fields(
                        all.take(i as int),
                    )[j].0 && claims@[j].1@ == claim_fields(all.take(i as int))[j].1->Text_0,
            decreases fields@.len() - i,
        {
            let ghost so_far = claim_fields(all.take(i as int));
            let ghost next = all.take(i + 1);
            assert(next.drop_last() == all.take(i as int));
            assert(next.last() == all[i as int]);
            assert(all[i as int] == (fields@[i as int].0@, fields@[i as int].1@));
            let name = fields[i].0.as_str();
            let control = str_equal(name, ACCUMULATOR_KEY) || str_equal(name, PK_KEY) || str_equal(
                name,
                PARAM_SEED_KEY,
            ) || str_equal(name, SD_ALG);
            assert(control == is_control_key(all[i as int].0));
            if !control {
                assert(claim_fields(next) == so_far.push(all[i as int]));
                match &fields[i].1 {
                    JsonValue::Text(val) => {
                        claims.push((fields[i].0.clone(), val.clone()));
                    },
                    _ => {
                        proof {
                            lemma_claim_fields_prefix(all, i + 1);
                            let at = so_far.len() as int;
                            assert(e4.take(at + 1)[at] == claim_fields(next)[at]);
                            assert forall|j: int| 0 <= j < at implies (#[trigger] e4[j]).1
                                is Text by {
                                assert(e4.take(at + 1)[j] == claim_fields(next)[j]);
                                assert(claim_fields(next)[j] == so_far[j]);
                            }
                            lemma_first_non_text(e4, at);
                        }
                        let head = joined("Witness of [", name);
                        return Err(CsdError::Unspecified(joined(head.as_str(), "] not a string")));
                    },
                }
            } else {
                assert(claim_fields(next) == so_far);
            }
            i = i + 1;
        }
        proof {
            assert(all.take(all.len() as int) == all);
            lemma_first_non_text(e4, e4.len() as int);
        }
        let env = Envelope { accumulator, public_key, params, claims };
        assert(env@.claims =~= claims_of(e4));
        Ok(env)
    }

    /// The names of the claims that do not verify, in their order. Every
    /// claim is checked, whatever the outcome of the others.
    pub fn failing_claims(&self) -> (r: Vec<String>)
        ensures
            texts(r@) == failing_keys(self@, self@.claims),
            r@.len() == 0 <==> all_verify(self@),
    {
        let ghost all = self@.claims;
        let mut failing: Vec<String> = Vec::new();
        let mut i: usize = 0;
        while i < self.claims.len()
            invariant
                i <= self.claims@.len(),
                all == self@.claims,
                texts(failing@) == failing_keys(self@, all.take(i as int)),
            decreases self.claims@.len() - i,
        {
            let ghost next = all.take(i + 1);
            assert(next.drop_last() == all.take(i as int));
            assert(next.last() == (self.claims@[i as int].0@, self.claims@[i as int].1@));
            let ok = verify_claim(
                &self.accumulator,
                &self.public_key,
                &self.params,
                self.claims[i].0.as_str(),
                self.claims[i].1.as_str(),
            );
            if !ok {
                let ghost before = texts(failing@);
                failing.push(self.claims[i].0.clone());
                assert(texts(failing@) =~= before.push(self.claims@[i as int].0@));
            }
            i = i + 1;
        }
        proof {
            assert(all.take(self.claims@.len() as int) == all);
            lemma_none_fails(self@, all);
        }
        failing
    }
}

/// The names of those outcomes that are failures, in their order.
pub open spec fn failed_names(outcomes: Seq<(Seq<char>, bool)>) -> Seq<Seq<char>>
    decreases outcomes.len(),
{
    if outcomes.len() == 0 {
        Seq::empty()
    } else if outcomes.last().1 {
        failed_names(outcomes.drop_last())
    } else {
        failed_names(outcomes.drop_last()).push(outcomes.last().0)
    }
}

/// The outcomes of a list, each the name of a claim and whether it verified.
pub open spec fn outcome_views(outcomes: Seq<(String, bool)>) -> Seq<(Seq<char>, bool)> {
    Seq::new(outcomes.len(), |i: int| (outcomes[i].0@, outcomes[i].1))
}

/// Gathers the outcomes of checks that ran apart from each other: the names
/// of the claims that did not verify, in the order of the outcomes. No
/// outcome is dropped.
pub fn failing_among(outcomes: &Vec<(String, bool)>) -> (r: Vec<String>)
    ensures
        texts(r@) == failed_names(outcome_views(outcomes@)),
        r@.len() == 0 <==> forall|i: int| 0 <= i < outcomes@.len() ==> (#[trigger] outcomes@[i]).1,
{
    let ghost all = outcome_views(outcomes@);
    let mut failing: Vec<String> = Vec::new();
    let mut i: usize = 0;
    while i < outcomes.len()
        invariant
            i <= outcomes@.len(),
            all == outcome_views(outcomes@),
            texts(failing@) == failed_names(all.take(i as int)),
            failing@.len() == 0 <==> forall|j: int| 0 <= j < i ==> (#[trigger] outcomes@[j]).1,
        decreases outcomes@.len() - i,
    {
        assert(all.take(i + 1).drop_last() == all.take(i as int));
        assert(all.take(i + 1).last() == (outcomes@[i as int].0@, outcomes@[i as int].1));
        if !outcomes[i].1 {
            let ghost before = texts(failing@);
            failing.push(outcomes[i].0.clone());
            assert(texts(failing@) =~= before.push(outcomes@[i as int].0@));
        }
        i = i + 1;
    }
    assert(all.take(outcomes@.len() as int) == all);
    failing
}

/// The sentence for a transport string of `what` that is refused.
fn codec_sentence(what: &str, e: CodecError) -> (r: String)
    ensures
        r@ == codec_message(what@, e),
{
    match e {
        CodecError::InvalidBase64 => joined(what, " is not base64 text"),
        CodecError::InvalidFormat => joined(what, " is not the canonical encoding of a point"),
    }
}

/// Checks claims against the accumulator of an envelope.
pub struct CsdDecoder {}

impl CsdDecoder {
    /// Creates a new [`CsdDecoder`].
    pub fn new() -> (r: Self) {
        CsdDecoder {  }
    }

    /// Passes `object` through: the result is equal to it. An object in
    /// which an array stands, at any depth, is refused.
    pub fn decode(&self, object: &JsonMap) -> (r: Result<JsonMap, CsdError>)
        ensures
            match r {
                Ok(out) => !array_in_fields(object@) && out@ == object@,
                Err(e) => array_in_fields(object@) && (e matches CsdError::Unspecified(m) && m@
                    == "No arrays allowed yet!"@),
            },
    {
        self.decode_object(object)
    }

    /// Reads the envelope that `object` is and checks every claim against
    /// its accumulator: `true` where all verify, `false` where one does not.
    /// An object that is no envelope is reported before any claim is checked.
    pub fn validate_object(&self, object: JsonMap) -> (r: Result<bool, CsdError>)
        ensures
            match r {
                Ok(valid) => envelope_of(object@) matches Ok(env) && valid == all_verify(env),
                Err(e) => envelope_of(object@) matches Err(fault) && tells(e, fault),
            },
    {
        match Envelope::open(object) {
            Ok(env) => Ok(env.failing_claims().len() == 0),
            Err(e) => Err(e),
        }
    }

    /// Reads the envelope that `object` is and checks every claim against
    /// its accumulator: the names of the claims that do not verify.
    pub fn failing_claims(&self, object: JsonMap) -> (r: Result<Vec<String>, CsdError>)
        ensures
            match r {
                Ok(names) => envelope_of(object@) matches Ok(env) && texts(names@) == failing_keys(
                    env,
                    env.claims,
                ),
                Err(e) => envelope_of(object@) matches Err(fault) && tells(e, fault),
            },
    {
        match Envelope::open(object) {
            Ok(env) => Ok(env.failing_claims()),
            Err(e) => Err(e),
        }
    }

    #[verifier::loop_isolation(false)]
    fn decode_object(&self, object: &JsonMap) -> (r: Result<JsonMap, CsdError>)
        ensures
            match r {
                Ok(out) => !array_in_fields(object@) && out@ == object@,
                Err(e) => array_in_fields(object@) && (e matches CsdError::Unspecified(m) && m@
                    == "No arrays allowed yet!"@),
            },
        decreases object@,
    {
        let fields = object.fields();
        let mut output = JsonMap::new();
        let mut i: usize = 0;
        while i < fields.len()
            invariant
                i <= fields@.len() == object@.len(),
                output@ == object@.take(i as int),
                forall|j: int| 0 <= j < i ==> !array_within(#[trigger] object@[j].1),
            decreases fields@.len() - i,
        {
            let key = fields[i].0.clone();
            assert(object@[i as int] == (fields@[i as int].0@, fields@[i as int].1@));
            proof {
                assert forall|j: int| 0 <= j < output@.len() implies (#[trigger] output@[j]).0
                    != key@ by {
                    assert(output@[j] == object@[j]);
                }
                lemma_key_index(output@, key@, output@.len() as int);
            }
            match &fields[i].1 {
                JsonValue::Object(inner) => {
                    assert(object@[i as int].1 == ValueView::Object(inner@));
                    let ghost held = object@[i as int].1;
                    assert(held->Object_0 == inner@);
                    assert(decreases_to!(object@ => object@[i as int]));
                    assert(decreases_to!(object@[i as int] => held));
                    assert(decreases_to!(held => held->Object_0));
                    match self.decode_object(inner) {
                        Ok(decoded) => {
                            let _ = output.insert(key, JsonValue::Object(decoded));
                        },
                        Err(e) => {
                            assert(array_within(object@[i as int].1));
                            return Err(e);
                        },
                    }
                },
                JsonValue::Array(_) => {
                    assert(array_within(object@[i as int].1));
                    return Err(CsdError::Unspecified("No arrays allowed yet!".to_owned()));
                },
                other => {
                    let _ = output.insert(key, other.duplicate());
                },
            }
            assert(output@ =~= object@.take(i + 1));
            i = i + 1;
        }
        assert(object@.take(object@.len() as int) == object@);
        Ok(output)
    }
}

} // verus!
