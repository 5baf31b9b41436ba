//! The issuer's side: conceal fields of an object, then commit what is left
//! into a fresh accumulator and attach a witness to each claim.

use crate::accumulator::{
    after_add_batch, base64_text, batch_refusal, cancels, copy_scalars, initial_value,
    initialize_accumulator, is_params, lemma_batch_accepted, lemma_members_accepted,
    members_refusal, params_valid, scalar_bytes, scalar_from_str, scalar_of_str, seeded_keypair,
    seeded_params, serialize_accumulator, serialize_pk, serialize_witness, witness_bytes,
    witness_from_text, witnesses_of, AccumulatorError, CodecError, Scalar,
};
use crate::csd::csd_decoder::{
    claim_verifies, envelope_entries, envelope_of, is_control_key, lemma_control_keys_differ,
    lemma_envelope_of_entries, text_of, validates, EnvelopeFault, EnvelopeView,
};
use crate::csd::csd_disclosure::{base64url_text, disclosure_input, CsdDisclosure};
use crate::csd::csd_error::{CsdError, CsdResult};
use crate::json::{
    has_key, json_parsed, json_text, key_index, lemma_key_index, read_json, value_of, with_entry,
    without_key, write_json, EntriesView, JsonMap, JsonValue, ValueView,
};
use crate::state::distinct;
use crate::text::{
    decimal, decimal_string, joined, lemma_parse_decimal, parse_u64, parsed_u64, texts,
};
use vstd::prelude::*;

verus! {

/// The name of the field that holds the algorithm tag.
pub const SD_ALG: &'static str = "_sd_alg";

/// The token type of the header.
pub const HEADER_TYP: &'static str = "sd-jwt";

/// The algorithm tag of this library: the name of the pairing that the
/// accumulator works over.
pub const SD_ALG_VALUE: &'static str = "ark_ec::models::bn::Bn<ark_bn254::curves::Config>";

/// The name of the field that holds the accumulator value.
pub const ACCUMULATOR_KEY: &'static str = "accumulator";

/// The name of the field that holds the public key.
pub const PK_KEY: &'static str = "pk";

/// The name of the field that holds the parameter seed.
pub const PARAM_SEED_KEY: &'static str = "param_seed";

/// The key seed of an encoder that was given none.
pub const DEFAULT_KEY_SEED: u64 = 0u64;

/// The parameter seed of an encoder that was given none.
pub const DEFAULT_PARAM_SEED: u64 = 1u64;

/// A parsed JSON pointer of `json_pointer`, held for its reference tokens.
#[verifier::external_body]
pub struct Pointer {
    inner: json_pointer::JsonPointer<String, Vec<String>>,
}

/// The reference tokens that a pointer holds, in their order.
pub uninterp spec fn pointer_tokens(pointer: Pointer) -> Seq<Seq<char>>;

/// The reference tokens that `json_pointer` reads from a path; none where it
/// refuses the path.
pub uninterp spec fn pointer_parsed(path: Seq<char>) -> Option<Seq<Seq<char>>>;

/// `str::parse` into a `json_pointer::JsonPointer`. The contract names the
/// tokens read; the error is the `Debug` text of the one that the crate gives.
#[verifier::external_body]
fn parse_pointer(path: &str) -> (r: Result<Pointer, String>)
    ensures
        match r {
            Ok(p) => pointer_parsed(path@) == Some(pointer_tokens(p)),
            Err(_) => pointer_parsed(path@) is None,
        },
{
    match path.parse::<json_pointer::JsonPointer<String, Vec<String>>>() {
        Ok(inner) => Ok(Pointer { inner }),
        Err(e) => Err(format!("{:?}", e)),
    }
}

/// `JsonPointer::pop`: takes the last reference token off and returns it;
/// none, and no change, where the pointer holds no token.
#[verifier::external_body]
fn pop_token(pointer: &mut Pointer) -> (r: Option<String>)
    ensures
        match r {
            Some(t) => pointer_tokens(*old(pointer)).len() > 0 && t@ == pointer_tokens(
                *old(pointer),
            ).last() && pointer_tokens(*final(pointer)) == pointer_tokens(
                *old(pointer),
            ).drop_last(),
            None => pointer_tokens(*old(pointer)).len() == 0 && pointer_tokens(*final(pointer))
                == pointer_tokens(*old(pointer)),
        },
{
    pointer.inner.pop()
}

/// The reference tokens of a path, in their order; the error is the text of
/// the one that the parser gives.
pub fn tokens_of(path: &str) -> (r: Result<Vec<String>, String>)
    ensures
        match r {
            Ok(tokens) => pointer_parsed(path@) == Some(texts(tokens@)),
            Err(_) => pointer_parsed(path@) is None,
        },
{
    let mut pointer = match parse_pointer(path) {
        Ok(p) => p,
        Err(e) => {
            return Err(e);
        },
    };
    let ghost all = pointer_tokens(pointer);
    let mut backwards: Vec<String> = Vec::new();
    loop
        invariant
            backwards@.len() + pointer_tokens(pointer).len() == all.len(),
            pointer_tokens(pointer) == all.take(pointer_tokens(pointer).len() as int),
            forall|j: int|
                0 <= j < backwards@.len() ==> (#[trigger] backwards@[j])@ == all[all.len() - 1 - j],
        ensures
            pointer_tokens(pointer).len() == 0,
        decreases pointer_tokens(pointer).len(),
    {
        match pop_token(&mut pointer) {
            Some(t) => {
                backwards.push(t);
            },
            None => {
                break ;
            },
        }
    }
    let mut tokens: Vec<String> = Vec::new();
    let mut i: usize = backwards.len();
    while i > 0
        invariant
            i <= backwards@.len() == all.len(),
            tokens@.len() == backwards@.len() - i,
            forall|j: int|
                0 <= j < backwards@.len() ==> (#[trigger] backwards@[j])@ == all[all.len() - 1 - j],
            forall|j: int| 0 <= j < tokens@.len() ==> (#[trigger] tokens@[j])@ == all[j],
        decreases i,
    {
        i = i - 1;
        tokens.push(backwards[i].clone());
    }
    assert(texts(tokens@) =~= all);
    Ok(tokens)
}

/// What concealing gives: the value without the concealed part, that part,
/// and whether the part was a named field of an object.
pub struct Concealed {
    pub rest: ValueView,
    pub part: ValueView,
    pub named: bool,
}

/// The place in an array of `len` items that `token` writes; none where it
/// writes no number or one that is no place of the array.
pub open spec fn array_index(len: nat, token: Seq<char>) -> Option<int> {
    match parsed_u64(token) {
        Some(i) => if i < len {
            Some(i as int)
        } else {
            None
        },
        None => None,
    }
}

/// The sentence for a token that leads nowhere in `value`.
pub open spec fn step_fault(value: ValueView, token: Seq<char>) -> Seq<char> {
    match value {
        ValueView::Object(_) => token + " does not exist"@,
        ValueView::Array(_) => token + " is no index of the array"@,
        _ => "parent of element can can only be an object or an array"@,
    }
}

/// Conceals in `value` the part that `tokens` lead to: each token but the
/// last steps into a field of an object or an item of an array, and the last
/// names the field or item that is taken out. Where a field is taken out the
/// last field of the object moves to its place; the items of an array keep
/// their order. The error is the sentence for the first token that leads
/// nowhere.
pub open spec fn conceal_in(value: ValueView, tokens: Seq<Seq<char>>) -> Result<
    Concealed,
    Seq<char>,
>
    decreases tokens.len(),
{
    if tokens.len() == 0 {
        Err("path does not contain any values"@)
    } else {
        let token = tokens[0];
        match value {
            ValueView::Object(entries) => {
                let i = key_index(entries, token);
                if !has_key(entries, token) {
                    Err(step_fault(value, token))
                } else if tokens.len() == 1 {
                    Ok(
                        Concealed {
                            rest: ValueView::Object(without_key(entries, token)),
                            part: entries[i].1,
                            named: true,
                        },
                    )
                } else {
                    match conceal_in(entries[i].1, tokens.drop_first()) {
                        Ok(c) => Ok(
                            Concealed {
                                rest: ValueView::Object(entries.update(i, (entries[i].0, c.rest))),
                                part: c.part,
                                named: c.named,
                            },
                        ),
                        Err(m) => Err(m),
                    }
                }
            },
            ValueView::Array(items) => {
                match array_index(items.len(), token) {
                    None => Err(step_fault(value, token)),
                    Some(i) => if tokens.len() == 1 {
                        Ok(
                            Concealed {
                                rest: ValueView::Array(items.remove(i)),
                                part: items[i],
                                named: false,
                            },
                        )
                    } else {
                        match conceal_in(items[i], tokens.drop_first()) {
                            Ok(c) => Ok(
                                Concealed {
                                    rest: ValueView::Array(items.update(i, c.rest)),
                                    part: c.part,
                                    named: c.named,
                                },
                            ),
                            Err(m) => Err(m),
                        }
                    },
                }
            },
            _ => Err(step_fault(value, token)),
        }
    }
}

/// The sentence for a token that leads nowhere in `value`.
fn step_sentence(value: &JsonValue, token: &str) -> (r: String)
    ensures
        r@ == step_fault(value@, token@),
{
    match value {
        JsonValue::Object(_) => joined(token, " does not exist"),
        JsonValue::Array(_) => joined(token, " is no index of the array"),
        _ => "parent of element can can only be an object or an array".to_owned(),
    }
}

/// Conceals in `value` the part that the tokens from `from` on lead to. It
/// returns the value that is left, which is `value` itself where a token
/// leads nowhere, and the part with the mark of a named field.
fn conceal_value(value: JsonValue, tokens: &Vec<String>, from: usize) -> (r: (
    JsonValue,
    Result<(JsonValue, bool), String>,
))
    requires
        from <= tokens@.len(),
    ensures
        match conceal_in(value@, texts(tokens@).skip(from as int)) {
            Ok(c) => r.0@ == c.rest && (r.1 matches Ok(found) && found.0@ == c.part && found.1
                == c.named),
            Err(m) => r.0@ == value@ && (r.1 matches Err(s) && s@ == m),
        },
    decreases tokens@.len() - from,
{
    let ghost rest_tokens = texts(tokens@).skip(from as int);
    if from == tokens.len() {
        return (value, Err("path does not contain any values".to_owned()));
    }
    assert(rest_tokens[0] == tokens@[from as int]@);
    assert(rest_tokens.drop_first() == texts(tokens@).skip(from + 1));
    let last = from + 1 == tokens.len();
    let token = tokens[from].as_str();
    match value {
        JsonValue::Object(map) => {
            let mut map = map;
            let ghost entries = map@;
            if last {
                match map.remove(token) {
                    Some(part) => (JsonValue::Object(map), Ok((part, true))),
                    None => {
                        let whole = JsonValue::Object(map);
                        let sentence = step_sentence(&whole, token);
                        (whole, Err(sentence))
                    },
                }
            } else {
                let i = map.position(token);
                if i >= map.len() {
                    let whole = JsonValue::Object(map);
                    let sentence = step_sentence(&whole, token);
                    return (whole, Err(sentence));
                }
                let child = map.replace_value(i, JsonValue::Null);
                let inner = conceal_value(child, tokens, from + 1);
                let _ = map.replace_value(i, inner.0);
                proof {
                    match conceal_in(entries[i as int].1, rest_tokens.drop_first()) {
                        Ok(c) => {
                            let field = (entries[i as int].0, c.rest);
                            assert(map@ =~= entries.update(i as int, field));
                        },
                        Err(_) => {
                            assert(map@ =~= entries);
                        },
                    }
                }
                (JsonValue::Object(map), inner.1)
            }
        },
        JsonValue::Array(items) => {
            let mut items = items;
            let ghost before = JsonValue::Array(items)@->Array_0;
            let place = match parse_u64(token) {
                Some(n) => if n < items.len() as u64 {
                    Some(n as usize)
                } else {
                    None
                },
                None => None,
            };
            let i = match place {
                Some(i) => i,
                None => {
                    let whole = JsonValue::Array(items);
                    let sentence = step_sentence(&whole, token);
                    return (whole, Err(sentence));
                },
            };
            let item = items.remove(i);
            assert(item@ == before[i as int]);
            if last {
                let whole = JsonValue::Array(items);
                assert(whole@->Array_0 =~= before.remove(i as int));
                (whole, Ok((item, false)))
            } else {
                let inner = conceal_value(item, tokens, from + 1);
                items.insert(i, inner.0);
                let whole = JsonValue::Array(items);
                proof {
                    match conceal_in(before[i as int], rest_tokens.drop_first()) {
                        Ok(c) => {
                            assert(whole@->Array_0 =~= before.update(i as int, c.rest));
                        },
                        Err(_) => {
                            assert(whole@->Array_0 =~= before);
                        },
                    }
                }
                (whole, inner.1)
            }
        },
        other => {
            let sentence = step_sentence(&other, token);
            (other, Err(sentence))
        },
    }
}

/// The text that is committed for a field: its name, two colons, and the JSON
/// text of its value.
pub open spec fn claim_text(key: Seq<char>, value: ValueView) -> Seq<char> {
    key + "::"@ + json_text(value)
}

/// The text that is committed for a field.
pub fn claim_string(key: &str, value: &JsonValue) -> (r: String)
    ensures
        r@ == claim_text(key@, value@),
{
    let head = joined(key, "::");
    let value_text = write_json(value);
    joined(head.as_str(), value_text.as_str())
}

/// The texts that are committed for the fields, in their order.
pub open spec fn claim_texts(entries: EntriesView) -> Seq<Seq<char>> {
    Seq::new(entries.len(), |i: int| claim_text(entries[i].0, entries[i].1))
}

/// The scalars that are committed for the fields, in their order.
pub open spec fn claim_scalars(entries: EntriesView) -> Seq<Seq<u8>> {
    Seq::new(entries.len(), |i: int| scalar_of_str(claim_text(entries[i].0, entries[i].1)))
}

/// The envelope after the four control fields are put in.
pub open spec fn with_controls(
    envelope: EntriesView,
    accumulator: Seq<u8>,
    public_key: Seq<u8>,
    param_seed: u64,
    alg: ValueView,
) -> EntriesView {
    let e1 = with_entry(envelope, ACCUMULATOR_KEY@, ValueView::Text(base64_text(accumulator)));
    let e2 = with_entry(e1, PK_KEY@, ValueView::Text(base64_text(public_key)));
    let e3 = with_entry(e2, PARAM_SEED_KEY@, ValueView::Text(decimal(param_seed as nat)));
    with_entry(e3, SD_ALG@, alg)
}

/// The envelope after each claim is put in with the transport string of its
/// witness, in the order of the claims.
pub open spec fn with_claims(
    envelope: EntriesView,
    claims: Seq<Seq<char>>,
    witnesses: Seq<Seq<u8>>,
) -> EntriesView
    decreases claims.len(),
{
    if claims.len() == 0 {
        envelope
    } else {
        with_entry(
            with_claims(envelope, claims.drop_last(), witnesses.drop_last()),
            claims.last(),
            ValueView::Text(base64_text(witnesses.last())),
        )
    }
}

/// Why no envelope is issued.
pub enum IssueFault {
    /// The parameters of the seed are not valid.
    InvalidSetup,
    /// The encoder holds a value that is no object.
    NotAnObject,
    /// The object has no algorithm tag.
    NoAlgorithm,
    /// The algorithm tag is no string.
    AlgorithmNotText,
    /// The accumulator refuses the batch of claims: two of them are the same
    /// scalar.
    Batch(AccumulatorError),
    /// The accumulator refuses to witness the claims: one of them cancels the
    /// secret key.
    Witness(AccumulatorError),
}

/// The envelope that is issued for `object`, or why none is: the algorithm
/// tag is taken out of the fields, the others are committed as one batch into
/// the empty accumulator of the seeds, and the envelope holds the control
/// fields and then the claims with their witnesses.
pub open spec fn issued(object: ValueView, key_seed: u64, param_seed: u64) -> Result<
    EntriesView,
    IssueFault,
> {
    if !params_valid(seeded_params(param_seed)) {
        Err(IssueFault::InvalidSetup)
    } else {
        match object {
            ValueView::Object(entries) => {
                let claims = without_key(entries, SD_ALG@);
                if !has_key(entries, SD_ALG@) {
                    Err(IssueFault::NoAlgorithm)
                } else if !(value_of(entries, SD_ALG@)->0 is Text) {
                    Err(IssueFault::AlgorithmNotText)
                } else if batch_refusal(Seq::empty(), claim_scalars(claims)) is Some {
                    Err(IssueFault::Batch(batch_refusal(Seq::empty(), claim_scalars(claims))->0))
                } else if members_refusal(
                    claim_scalars(claims),
                    claim_scalars(claims),
                    seeded_keypair(key_seed, seeded_params(param_seed)).0,
                ) is Some {
                    Err(
                        IssueFault::Witness(
                            members_refusal(
                                claim_scalars(claims),
                                claim_scalars(claims),
                                seeded_keypair(key_seed, seeded_params(param_seed)).0,
                            )->0,
                        ),
                    )
                } else {
                    Ok(first_envelope(entries, key_seed, param_seed))
                }
            },
            _ => Err(IssueFault::NotAnObject),
        }
    }
}

/// An envelope is issued exactly when the parameters of the seed are valid,
/// the object has an algorithm tag that is a string, no two claims are the
/// same scalar, and no claim cancels the secret key.
pub proof fn lemma_issue_succeeds(entries: EntriesView, key_seed: u64, param_seed: u64)
    ensures
        issued(ValueView::Object(entries), key_seed, param_seed) is Ok <==> {
            let secret = seeded_keypair(key_seed, seeded_params(param_seed)).0;
            let scalars = claim_scalars(without_key(entries, SD_ALG@));
            &&& params_valid(seeded_params(param_seed))
            &&& text_of(value_of(entries, SD_ALG@)) is Some
            &&& distinct(scalars)
            &&& forall|i: int| 0 <= i < scalars.len() ==> !cancels(#[trigger] scalars[i], secret)
        },
{
    let secret = seeded_keypair(key_seed, seeded_params(param_seed)).0;
    let scalars = claim_scalars(without_key(entries, SD_ALG@));
    lemma_batch_accepted(Seq::empty(), scalars);
    lemma_members_accepted(scalars, scalars, secret);
}

/// What reading back an issued envelope gives: the accumulator value that
/// holds the claims, the public key and the parameters of the seeds, and the
/// claims with the transport strings of their witnesses.
pub open spec fn issued_parts(
    entries: EntriesView,
    key_seed: u64,
    param_seed: u64,
) -> EnvelopeView {
    let params = seeded_params(param_seed);
    let pair = seeded_keypair(key_seed, params);
    let claims = without_key(entries, SD_ALG@);
    let value = after_add_batch(initial_value(params), claim_scalars(claims), pair.0);
    EnvelopeView {
        accumulator: value,
        public_key: pair.1,
        params: params,
        claims: witnessed_claims(
            claim_texts(claims),
            witnesses_of(value, claim_scalars(claims), pair.0),
        ),
    }
}

/// Whether the error `e` tells the fault `fault`.
pub open spec fn tells_issue(e: CsdError, fault: IssueFault) -> bool {
    match fault {
        IssueFault::InvalidSetup => e matches CsdError::Unspecified(s) && s@
            == "Parameters of the seed are not valid!"@,
        IssueFault::NotAnObject => e matches CsdError::DataTypeMismatch(s) && s@
            == "encoder initialized with invalid JSON object."@,
        IssueFault::NoAlgorithm => e matches CsdError::Unspecified(s) && s@
            == "No sd-alg field present."@,
        IssueFault::AlgorithmNotText => e matches CsdError::DataTypeMismatch(s) && s@
            == "sd-alg field is not a string."@,
        IssueFault::Batch(x) => e matches CsdError::AddBatch(s) && s@ == x.spec_name(),
        IssueFault::Witness(x) => e matches CsdError::WitnessBatch(s) && s@ == x.spec_name(),
    }
}

/// Turns an object into an envelope: fields are concealed one by one, and
/// what is left is committed into a fresh accumulator.
pub struct CsdEncoder {
    object: JsonValue,
    final_object: JsonMap,
}

impl CsdEncoder {
    /// The envelope as it was last issued.
    pub closed spec fn envelope(&self) -> EntriesView {
        self.final_object@
    }

    /// Whether the encoder holds an object, as every encoder does that one of
    /// the constructors made.
    pub open spec fn wf(&self) -> bool {
        self.spec_object() is Object
    }

    /// The object that is worked on.
    pub closed spec fn spec_object(&self) -> ValueView {
        self.object@
    }

    /// The object that is worked on.
    pub fn working_object(&self) -> (r: &JsonValue)
        ensures
            r@ == self.spec_object(),
    {
        &self.object
    }

    /// Creates an encoder for the object that `object` writes.
    pub fn new(object: &str) -> (r: CsdResult<CsdEncoder>)
        ensures
            match r {
                Ok(encoder) => json_parsed(object@) == Some(encoder.spec_object()) && encoder.wf()
                    && encoder.envelope() == Seq::<(Seq<char>, ValueView)>::empty(),
                Err(CsdError::DeserializationError(_)) => json_parsed(object@) is None,
                Err(CsdError::DataTypeMismatch(m)) => json_parsed(object@) matches Some(v) && !(
                v is Object) && m@ == "expected object"@,
                Err(_) => false,
            },
    {
        match read_json(object) {
            Ok(value) => Self::try_from(value),
            Err(sentence) => Err(CsdError::DeserializationError(sentence)),
        }
    }

    /// Creates an encoder for `value`, which has to be an object.
    pub fn try_from(value: JsonValue) -> (r: CsdResult<CsdEncoder>)
        ensures
            match r {
                Ok(encoder) => encoder.spec_object() == value@ && encoder.wf() && encoder.envelope()
                    == Seq::<(Seq<char>, ValueView)>::empty(),
                Err(e) => !(value@ is Object) && (e matches CsdError::DataTypeMismatch(m) && m@
                    == "expected object"@),
            },
    {
        if !value.is_object() {
            return Err(CsdError::DataTypeMismatch("expected object".to_owned()));
        }
        Ok(CsdEncoder { object: value, final_object: JsonMap::new() })
    }

    /// Gives the object the algorithm tag of this library, and returns the
    /// tag that the object had. An encoder that holds no object is left as
    /// it is.
    pub fn add_sd_alg_property(&mut self) -> (r: Option<JsonValue>)
        ensures
            final(self).envelope() == old(self).envelope(),
            old(self).wf() ==> final(self).wf(),
            match old(self).spec_object() {
                ValueView::Object(entries) => {
                    &&& final(self).spec_object() == ValueView::Object(
                        with_entry(entries, SD_ALG@, ValueView::Text(SD_ALG_VALUE@)),
                    )
                    &&& match r {
                        Some(v) => value_of(entries, SD_ALG@) == Some(v@),
                        None => value_of(entries, SD_ALG@) is None,
                    }
                },
                _ => final(self).spec_object() == old(self).spec_object() && r is None,
            },
    {
        let mut taken = JsonValue::Null;
        std::mem::swap(&mut self.object, &mut taken);
        match taken {
            JsonValue::Object(map) => {
                let mut map = map;
                let tag = JsonValue::Text(SD_ALG_VALUE.to_owned());
                let previous = map.insert(SD_ALG.to_owned(), tag);
                self.object = JsonValue::Object(map);
                previous
            },
            other => {
                self.object = other;
                None
            },
        }
    }

    /// Conceals the part of the object that `tokens` lead to, and returns its
    /// record: named after the last token where the part was a field of an
    /// object, unnamed where it was an item of an array. Where a token leads
    /// nowhere the object is left as it is.
    pub fn conceal_tokens(&mut self, tokens: &Vec<String>) -> (r: CsdResult<CsdDisclosure>)
        ensures
            final(self).envelope() == old(self).envelope(),
            old(self).wf() ==> final(self).wf(),
            match conceal_in(old(self).spec_object(), texts(tokens@)) {
                Ok(c) => {
                    &&& final(self).spec_object() == c.rest
                    &&& r matches Ok(d)
                    &&& d@.claim_value == c.part
                    &&& d@.claim_name == if c.named {
                        Some(tokens@.last()@)
                    } else {
                        None
                    }
                    &&& d@.disclosure == base64url_text(
                        vstd::utf8::encode_utf8(disclosure_input(d@.claim_name, c.part)),
                    )
                },
                Err(m) => {
                    &&& final(self).spec_object() == old(self).spec_object()
                    &&& r matches Err(CsdError::InvalidPath(s))
                    &&& s@ == m
                },
            },
    {
        let mut taken = JsonValue::Null;
        std::mem::swap(&mut self.object, &mut taken);
        assert(texts(tokens@).skip(0) == texts(tokens@));
        let found = conceal_value(taken, tokens, 0);
        self.object = found.0;
        match found.1 {
            Ok(part) => {
                let name = if part.1 {
                    Some(tokens[tokens.len() - 1].clone())
                } else {
                    None
                };
                Ok(CsdDisclosure::new(name, part.0))
            },
            Err(sentence) => Err(CsdError::InvalidPath(sentence)),
        }
    }

    /// Conceals the part of the object that the JSON pointer `path` leads
    /// to. A path that is no JSON pointer is refused, and the object is left
    /// as it is.
    pub fn conceal(&mut self, path: &str) -> (r: CsdResult<CsdDisclosure>)
        ensures
            final(self).envelope() == old(self).envelope(),
            old(self).wf() ==> final(self).wf(),
            match pointer_parsed(path@) {
                None => final(self).spec_object() == old(self).spec_object() && r matches Err(
                    CsdError::InvalidPath(_),
                ),
                Some(tokens) => match conceal_in(old(self).spec_object(), tokens) {
                    Ok(c) => {
                        &&& final(self).spec_object() == c.rest
                        &&& r matches Ok(d)
                        &&& d@.claim_value == c.part
                        &&& d@.claim_name == if c.named {
                            Some(tokens.last())
                        } else {
                            None
                        }
                        &&& d@.disclosure == base64url_text(
                            vstd::utf8::encode_utf8(disclosure_input(d@.claim_name, c.part)),
                        )
                    },
                    Err(m) => {
                        &&& final(self).spec_object() == old(self).spec_object()
                        &&& r matches Err(CsdError::InvalidPath(s))
                        &&& s@ == m
                    },
                },
            },
    {
        match tokens_of(path) {
            Ok(tokens) => self.conceal_tokens(&tokens),
            Err(sentence) => Err(CsdError::InvalidPath(sentence)),
        }
    }

    /// Issues the envelope of the object as it is now, under the seeds the
    /// encoder has by default.
    pub fn object(&mut self) -> (r: CsdResult<&JsonMap>)
        ensures
            final(self).spec_object() == old(self).spec_object(),
            match issued(old(self).spec_object(), DEFAULT_KEY_SEED, DEFAULT_PARAM_SEED) {
                Ok(envelope) => {
                    &&& final(self).envelope() == envelope
                    &&& r matches Ok(out)
                    &&& out@ == envelope
                    &&& old(self).spec_object() matches ValueView::Object(entries)
                    &&& envelope_of(envelope) == Ok::<EnvelopeView, EnvelopeFault>(
                        issued_parts(entries, DEFAULT_KEY_SEED, DEFAULT_PARAM_SEED),
                    )
                    &&& validates(envelope)
                },
                Err(fault) => final(self).envelope() == old(self).envelope() && (
                r matches Err(e) && tells_issue(e, fault)),
            },
    {
        self.object_with_seeds(DEFAULT_KEY_SEED, DEFAULT_PARAM_SEED)
    }

    /// Issues the envelope of the object as it is now: every field but the
    /// algorithm tag becomes a claim, the claims are committed as one batch
    /// into the empty accumulator of the seeds, and the envelope holds the
    /// accumulator value, the public key, the parameter seed, the algorithm
    /// tag, and each claim with the transport string of its witness, and
    /// nothing else. Read back, the envelope gives those values, and every
    /// claim verifies. Where no envelope is issued, the last one stays.
    pub fn object_with_seeds(&mut self, key_seed: u64, param_seed: u64) -> (r: CsdResult<&JsonMap>)
        ensures
            final(self).spec_object() == old(self).spec_object(),
            match issued(old(self).spec_object(), key_seed, param_seed) {
                Ok(envelope) => {
                    &&& final(self).envelope() == envelope
                    &&& r matches Ok(out)
                    &&& out@ == envelope
                    &&& old(self).spec_object() matches ValueView::Object(entries)
                    &&& envelope_of(envelope) == Ok::<EnvelopeView, EnvelopeFault>(
                        issued_parts(entries, key_seed, param_seed),
                    )
                    &&& validates(envelope)
                },
                Err(fault) => final(self).envelope() == old(self).envelope() && (
                r matches Err(e) && tells_issue(e, fault)),
            },
    {
        let (params, keypair, accumulator, mut state) = initialize_accumulator(
            key_seed,
            param_seed,
        );
        if !params.is_valid() {
            return Err(CsdError::Unspecified("Parameters of the seed are not valid!".to_owned()));
        }
        let mut map = match &self.object {
            JsonValue::Object(map) => map.duplicate(),
            _ => {
                return Err(
                    CsdError::DataTypeMismatch(
                        "encoder initialized with invalid JSON object.".to_owned(),
                    ),
                );
            },
        };
        let ghost entries = map@;
        let sd_alg = match map.remove(SD_ALG) {
            Some(JsonValue::Text(tag)) => JsonValue::Text(tag),
            Some(_) => {
                return Err(CsdError::DataTypeMismatch("sd-alg field is not a string.".to_owned()));
            },
            None => {
                return Err(CsdError::Unspecified("No sd-alg field present.".to_owned()));
            },
        };
        let ghost fields = map@;
        let mut claims: Vec<String> = Vec::new();
        let mut scalar_claims: Vec<Scalar> = Vec::new();
        let mut i: usize = 0;
        let held = map.fields();
        while i < held.len()
            invariant
                i <= held@.len() == fields.len(),
                forall|j: int|
                    0 <= j < held@.len() ==> fields[j] == ((#[trigger] held@[j]).0@, held@[j].1@),
                claims@.len() == i,
                scalar_claims@.len() == i,
                forall|j: int| 0 <= j < i ==> (#[trigger] claims@[j])@ == claim_texts(fields)[j],
                forall|j: int|
                    0 <= j < i ==> (#[trigger] scalar_claims@[j])@ == claim_scalars(fields)[j],
            decreases held@.len() - i,
        {
            let claim = claim_string(held[i].0.as_str(), &held[i].1);
            scalar_claims.push(scalar_from_str(claim.as_str()));
            claims.push(claim);
            i = i + 1;
        }
        assert(texts(claims@) =~= claim_texts(fields));
        assert(scalar_bytes(scalar_claims@) =~= claim_scalars(fields));
        let accumulator = match accumulator.add_batch(
            copy_scalars(&scalar_claims),
            &keypair.secret_key,
            &mut state,
        ) {
            Ok(accumulator) => accumulator,
            Err(err) => {
                return Err(CsdError::AddBatch(err.name()));
            },
        };
        proof {
            assert(state@ =~= claim_scalars(fields));
        }
        let witnesses = match accumulator.get_membership_witnesses_for_batch(
            &scalar_claims,
            &keypair.secret_key,
            &state,
        ) {
            Ok(witnesses) => witnesses,
            Err(err) => {
                return Err(CsdError::WitnessBatch(err.name()));
            },
        };
        let ghost value = accumulator@;
        let ghost public = keypair.public_key@;
        let ghost alg = sd_alg@;
        let mut envelope = JsonMap::new();
        let serialized_accumulator = serialize_accumulator(accumulator);
        let _ = envelope.insert(
            ACCUMULATOR_KEY.to_owned(),
            JsonValue::Text(serialized_accumulator),
        );
        let serialized_pk = serialize_pk(keypair.public_key);
        let _ = envelope.insert(PK_KEY.to_owned(), JsonValue::Text(serialized_pk));
        let _ = envelope.insert(
            PARAM_SEED_KEY.to_owned(),
            JsonValue::Text(decimal_string(param_seed)),
        );
        let _ = envelope.insert(SD_ALG.to_owned(), sd_alg);
        let ghost controls = envelope@;
        let ghost names = claim_texts(fields);
        let ghost points = witness_bytes(witnesses@);
        let mut k: usize = 0;
        while k < claims.len()
            invariant
                k <= claims@.len() == witnesses@.len(),
                texts(claims@) == names,
                witness_bytes(witnesses@) == points,
                envelope@ == with_claims(controls, names.take(k as int), points.take(k as int)),
                forall|j: int|
                    0 <= j < k ==> witness_from_text(base64_text(#[trigger] points[j])) == Ok::<
                        Seq<u8>,
                        CodecError,
                    >(points[j]),
            decreases claims@.len() - k,
        {
            assert(names.take(k + 1).drop_last() == names.take(k as int));
            assert(points.take(k + 1).drop_last() == points.take(k as int));
            assert(names.take(k + 1).last() == claims@[k as int]@);
            assert(points.take(k + 1).last() == witnesses@[k as int]@);
            let text = serialize_witness(witnesses[k].clone());
            let _ = envelope.insert(claims[k].clone(), JsonValue::Text(text));
            k = k + 1;
        }
        assert(names.take(claims@.len() as int) == names);
        assert(points.take(claims@.len() as int) == points);
        proof {
            let batch = claim_scalars(fields);
            let shown = witnessed_claims(names, points);
            lemma_batch_accepted(Seq::empty(), batch);
            assert forall|a: int, b: int| 0 <= a < b < names.len() implies names[a] != names[b] by {
                assert(batch[a] == scalar_of_str(names[a]));
                assert(batch[b] == scalar_of_str(names[b]));
            }
            assert forall|a: int| 0 <= a < names.len() implies !is_control_key(
                #[trigger] names[a],
            ) by {
                lemma_claim_is_no_control_key(fields[a].0, fields[a].1);
            }
            lemma_issued_shape(value, public, param_seed, alg, names, points);
            lemma_parse_decimal(param_seed);
            lemma_envelope_of_entries(
                base64_text(value),
                base64_text(public),
                decimal(param_seed as nat),
                alg,
                shown,
            );
            let env = envelope_of(envelope@)->Ok_0;
            assert(env == issued_parts(entries, key_seed, param_seed));
            assert forall|a: int| 0 <= a < env.claims.len() implies claim_verifies(
                env.accumulator,
                env.public_key,
                env.params,
                (#[trigger] env.claims[a]).0,
                env.claims[a].1,
            ) by {
                assert(env.claims[a] == (names[a], base64_text(points[a])));
                assert(points[a] == witnesses@[a]@);
                assert(batch[a] == scalar_of_str(names[a]));
                assert(scalar_claims@[a]@ == batch[a]);
                assert(is_params(params@));
                assert(seeded_keypair(key_seed, params@).0 == keypair.secret_key@);
            }
        }
        self.final_object = envelope;
        Ok(&self.final_object)
    }

    /// Returns the object, as it is now, as a string.
    pub fn try_to_string(&self) -> (r: CsdResult<String>)
        ensures
            r matches Ok(s) && s@ == json_text(self.spec_object()),
    {
        Ok(write_json(&self.object))
    }
}

/// The claims with the transport strings of their witnesses.
pub open spec fn witnessed_claims(names: Seq<Seq<char>>, points: Seq<Seq<u8>>) -> Seq<
    (Seq<char>, Seq<char>),
> {
    Seq::new(names.len(), |i: int| (names[i], base64_text(points[i])))
}

/// The envelope that is issued for the fields `entries`: the accumulator
/// value, the public key, the parameter seed and the algorithm tag, then every
/// other field as a claim with the transport string of its witness.
pub open spec fn first_envelope(
    entries: EntriesView,
    key_seed: u64,
    param_seed: u64,
) -> EntriesView {
    let params = seeded_params(param_seed);
    let pair = seeded_keypair(key_seed, params);
    let claims = without_key(entries, SD_ALG@);
    let value = after_add_batch(initial_value(params), claim_scalars(claims), pair.0);
    envelope_entries(
        base64_text(value),
        base64_text(pair.1),
        decimal(param_seed as nat),
        value_of(entries, SD_ALG@)->0,
        witnessed_claims(
            claim_texts(claims),
            witnesses_of(value, claim_scalars(claims), pair.0),
        ),
    )
}

/// The text of a claim is the name of no control field: it holds a colon,
/// and none of those names does.
pub proof fn lemma_claim_is_no_control_key(key: Seq<char>, value: ValueView)
    ensures
        !is_control_key(claim_text(key, value)),
{
    reveal_strlit("accumulator");
    reveal_strlit("pk");
    reveal_strlit("param_seed");
    reveal_strlit("_sd_alg");
    reveal_strlit("::");
    let text = claim_text(key, value);
    assert("::"@.len() == 2 && "::"@[0] == ':');
    assert(text.len() == key.len() + 2 + json_text(value).len());
    assert(text[key.len() as int] == "::"@[0]);
    let at = key.len() as int;
    if text == ACCUMULATOR_KEY@ {
        assert(at < 11);
        assert(ACCUMULATOR_KEY@[0] != ':');
        assert(ACCUMULATOR_KEY@[1] != ':');
        assert(ACCUMULATOR_KEY@[2] != ':');
        assert(ACCUMULATOR_KEY@[3] != ':');
        assert(ACCUMULATOR_KEY@[4] != ':');
        assert(ACCUMULATOR_KEY@[5] != ':');
        assert(ACCUMULATOR_KEY@[6] != ':');
        assert(ACCUMULATOR_KEY@[7] != ':');
        assert(ACCUMULATOR_KEY@[8] != ':');
        assert(ACCUMULATOR_KEY@[9] != ':');
        assert(ACCUMULATOR_KEY@[10] != ':');
    }
    if text == PK_KEY@ {
        assert(at < 2);
        assert(PK_KEY@[0] != ':');
        assert(PK_KEY@[1] != ':');
    }
    if text == PARAM_SEED_KEY@ {
        assert(at < 10);
        assert(PARAM_SEED_KEY@[0] != ':');
        assert(PARAM_SEED_KEY@[1] != ':');
        assert(PARAM_SEED_KEY@[2] != ':');
        assert(PARAM_SEED_KEY@[3] != ':');
        assert(PARAM_SEED_KEY@[4] != ':');
        assert(PARAM_SEED_KEY@[5] != ':');
        assert(PARAM_SEED_KEY@[6] != ':');
        assert(PARAM_SEED_KEY@[7] != ':');
        assert(PARAM_SEED_KEY@[8] != ':');
        assert(PARAM_SEED_KEY@[9] != ':');
    }
    if text == SD_ALG@ {
        assert(at < 7);
        assert(SD_ALG@[0] != ':');
        assert(SD_ALG@[1] != ':');
        assert(SD_ALG@[2] != ':');
        assert(SD_ALG@[3] != ':');
        assert(SD_ALG@[4] != ':');
        assert(SD_ALG@[5] != ':');
        assert(SD_ALG@[6] != ':');
    }
}

/// Into an empty envelope the control fields and the claims go as they come,
/// where the claims differ from each other and bear no control field's name.
pub proof fn lemma_issued_shape(
    accumulator: Seq<u8>,
    public_key: Seq<u8>,
    param_seed: u64,
    alg: ValueView,
    names: Seq<Seq<char>>,
    points: Seq<Seq<u8>>,
)
    requires
        names.len() == points.len(),
        forall|i: int, j: int| 0 <= i < j < names.len() ==> names[i] != names[j],
        forall|i: int| 0 <= i < names.len() ==> !is_control_key(#[trigger] names[i]),
    ensures
        with_claims(
            with_controls(Seq::empty(), accumulator, public_key, param_seed, alg),
            names,
            points,
        ) == envelope_entries(
            base64_text(accumulator),
            base64_text(public_key),
            decimal(param_seed as nat),
            alg,
            witnessed_claims(names, points),
        ),
    decreases names.len(),
{
    lemma_control_keys_differ();
    let empty = Seq::<(Seq<char>, ValueView)>::empty();
    let c1 = with_entry(empty, ACCUMULATOR_KEY@, ValueView::Text(base64_text(accumulator)));
    lemma_key_index(c1, PK_KEY@, 1);
    let c2 = with_entry(c1, PK_KEY@, ValueView::Text(base64_text(public_key)));
    lemma_key_index(c2, PARAM_SEED_KEY@, 2);
    let c3 = with_entry(c2, PARAM_SEED_KEY@, ValueView::Text(decimal(param_seed as nat)));
    lemma_key_index(c3, SD_ALG@, 3);
    let controls = with_controls(empty, accumulator, public_key, param_seed, alg);
    if names.len() == 0 {
        assert(controls =~= envelope_entries(
            base64_text(accumulator),
            base64_text(public_key),
            decimal(param_seed as nat),
            alg,
            witnessed_claims(names, points),
        ));
    } else {
        let front = names.drop_last();
        let front_points = points.drop_last();
        assert forall|i: int, j: int| 0 <= i < j < front.len() implies front[i] != front[j] by {
            assert(front[i] == names[i] && front[j] == names[j]);
        }
        assert forall|i: int| 0 <= i < front.len() implies !is_control_key(#[trigger] front[i]) by {
            assert(front[i] == names[i]);
        }
        lemma_issued_shape(accumulator, public_key, param_seed, alg, front, front_points);
        let before = envelope_entries(
            base64_text(accumulator),
            base64_text(public_key),
            decimal(param_seed as nat),
            alg,
            witnessed_claims(front, front_points),
        );
        let last = names.last();
        assert(names[names.len() - 1] == last);
        assert forall|j: int| 0 <= j < before.len() implies (#[trigger] before[j]).0 != last by {
            if j >= 4 {
                assert(before[j].0 == names[j - 4]);
            }
        }
        lemma_key_index(before, last, before.len() as int);
        let field = (last, ValueView::Text(base64_text(points.last())));
        assert(before.push(field) =~= envelope_entries(
            base64_text(accumulator),
            base64_text(public_key),
            decimal(param_seed as nat),
            alg,
            witnessed_claims(names, points),
        ));
    }
}

} // verus!
