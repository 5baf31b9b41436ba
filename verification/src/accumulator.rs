//! The positive accumulator over the BN254 pairing: scalars, keys, values and
//! witnesses, the operations on them, and the transport encoding.
//!
//! A curve point is held as its canonical compressed bytes, a scalar as its 32
//! big-endian bytes. The curve arithmetic is done by `vb_accumulator` and the
//! arkworks crates; what they return is named here and not computed.

use crate::state::{distinct, without_element, InMemoryState};
use crate::text::bytes_equal;
use ark_bn254::{Bn254, Fr, G1Affine};
use ark_ff::{BigInteger, PrimeField, Zero};
use ark_serialize::{CanonicalDeserialize, CanonicalSerialize};
use base64::Engine;
use rand::{rngs::StdRng, SeedableRng};
use sha3::Digest;
use vb_accumulator::positive::Accumulator;
use vb_accumulator::{positive, setup, witness};
use vstd::prelude::*;

verus! {

/// The order of the scalar field of BN254.
pub open spec fn scalar_order() -> nat {
    21888242871839275222246405745257275088548364400416034343698204186575808495617nat
}

/// The number that `bytes` write in base 256, most significant byte first.
pub open spec fn be_value(bytes: Seq<u8>) -> nat
    decreases bytes.len(),
{
    if bytes.len() == 0 {
        0
    } else {
        be_value(bytes.drop_last()) * 256 + bytes.last() as nat
    }
}

/// Whether `bytes` are the 32 bytes of a number below the order.
pub open spec fn is_scalar(bytes: Seq<u8>) -> bool {
    bytes.len() == 32 && be_value(bytes) < scalar_order()
}

/// The `len` bytes that write `n` in base 256, most significant byte first.
pub open spec fn be_bytes(n: nat, len: nat) -> Seq<u8>
    decreases len,
{
    if len == 0 {
        Seq::empty()
    } else {
        be_bytes(n / 256, (len - 1) as nat).push((n % 256) as u8)
    }
}

/// Bytes are the only ones of their length that write their number.
pub proof fn lemma_be_bytes_of_value(bytes: Seq<u8>)
    ensures
        be_bytes(be_value(bytes), bytes.len()) == bytes,
    decreases bytes.len(),
{
    if bytes.len() > 0 {
        let front = bytes.drop_last();
        lemma_be_bytes_of_value(front);
        let n = be_value(bytes);
        assert(n == be_value(front) * 256 + bytes.last() as nat);
        assert(n / 256 == be_value(front));
        assert(n % 256 == bytes.last() as nat);
        assert(be_bytes(n, bytes.len()) =~= bytes);
    } else {
        assert(be_bytes(be_value(bytes), bytes.len()) =~= bytes);
    }
}

/// Whether adding the scalar `element` to the key `secret` gives zero in the
/// field. The accumulator cannot invert such a sum.
pub open spec fn cancels(element: Seq<u8>, secret: Seq<u8>) -> bool {
    (be_value(element) + be_value(secret)) % scalar_order() == 0
}

/// The SHA3-256 digest of `bytes`.
pub uninterp spec fn sha3_256(bytes: Seq<u8>) -> Seq<u8>;

/// The base64 text of `bytes`: standard alphabet, padded.
pub uninterp spec fn base64_text(bytes: Seq<u8>) -> Seq<char>;

/// The canonical bytes of the accumulator value that `bytes` encode; none
/// where they encode no point of the curve.
pub uninterp spec fn accumulator_reading(bytes: Seq<u8>) -> Option<Seq<u8>>;

/// The canonical bytes of the witness that `bytes` encode; none where they
/// encode no point of the curve.
pub uninterp spec fn witness_reading(bytes: Seq<u8>) -> Option<Seq<u8>>;

/// The canonical bytes of the public key that `bytes` encode; none where they
/// encode no point of the second group.
pub uninterp spec fn public_key_reading(bytes: Seq<u8>) -> Option<Seq<u8>>;

/// The bytes of the parameters that the seeded generator draws for `seed`.
pub uninterp spec fn seeded_params(seed: u64) -> Seq<u8>;

/// The secret scalar and the public key that the seeded generator draws for
/// `seed` under `params`.
pub uninterp spec fn seeded_keypair(seed: u64, params: Seq<u8>) -> (Seq<u8>, Seq<u8>);

/// The value of the empty accumulator under `params`.
pub uninterp spec fn initial_value(params: Seq<u8>) -> Seq<u8>;

/// The accumulator value after `element` is added to `value` under `secret`.
pub uninterp spec fn after_add(value: Seq<u8>, element: Seq<u8>, secret: Seq<u8>) -> Seq<u8>;

/// The accumulator value after all of `elements` are added to `value`.
pub uninterp spec fn after_add_batch(
    value: Seq<u8>,
    elements: Seq<Seq<u8>>,
    secret: Seq<u8>,
) -> Seq<u8>;

/// The accumulator value after `element` is taken out of `value`.
pub uninterp spec fn after_remove(value: Seq<u8>, element: Seq<u8>, secret: Seq<u8>) -> Seq<u8>;

/// The membership witness of `element` in `value`.
pub uninterp spec fn witness_of(value: Seq<u8>, element: Seq<u8>, secret: Seq<u8>) -> Seq<u8>;

/// The membership witnesses of `elements` in `value`, one for each, in order.
pub uninterp spec fn witnesses_of(
    value: Seq<u8>,
    elements: Seq<Seq<u8>>,
    secret: Seq<u8>,
) -> Seq<Seq<u8>>;

/// Whether the pairing equation of membership holds of `element` and
/// `witness` against `value`, under `public_key` and `params`.
pub uninterp spec fn membership_holds(
    value: Seq<u8>,
    element: Seq<u8>,
    witness: Seq<u8>,
    public_key: Seq<u8>,
    params: Seq<u8>,
) -> bool;

/// Whether neither point of the parameters `params` is the point at infinity.
pub uninterp spec fn params_valid(params: Seq<u8>) -> bool;

/// Whether the public key `public_key` is not the point at infinity.
pub uninterp spec fn public_key_valid(public_key: Seq<u8>) -> bool;

/// Whether `bytes` are the canonical bytes of an accumulator value.
pub open spec fn is_accumulator(bytes: Seq<u8>) -> bool {
    accumulator_reading(bytes) == Some(bytes)
}

/// Whether `bytes` are the canonical bytes of a witness.
pub open spec fn is_witness(bytes: Seq<u8>) -> bool {
    witness_reading(bytes) == Some(bytes)
}

/// Whether `bytes` are the canonical bytes of a public key.
pub open spec fn is_public_key(bytes: Seq<u8>) -> bool {
    public_key_reading(bytes) == Some(bytes)
}

/// Whether `bytes` are parameters that the seeded generator draws.
pub open spec fn is_params(bytes: Seq<u8>) -> bool {
    exists|seed: u64| bytes == #[trigger] seeded_params(seed)
}

/// `sha3::Sha3_256::digest`. The contract names the digest.
#[verifier::external_body]
fn hash_sha3_256(data: &[u8]) -> (r: Vec<u8>)
    ensures
        r@ == sha3_256(data@),
{
    sha3::Sha3_256::digest(data).to_vec()
}

/// `ark_ff::PrimeField::from_be_bytes_mod_order` on the scalar field, written
/// back with `into_bigint` and `to_bytes_be`: the bytes are read as a number,
/// most significant first, and reduced by the order; the result is that number
/// in 32 bytes.
#[verifier::external_body]
fn reduce_scalar(bytes: &Vec<u8>) -> (r: Vec<u8>)
    ensures
        is_scalar(r@),
        be_value(r@) == be_value(bytes@) % scalar_order(),
{
    Fr::from_be_bytes_mod_order(bytes).into_bigint().to_bytes_be()
}

/// Field addition and `is_zero` of `ark_ff`: whether the two scalars add up
/// to zero modulo the order.
#[verifier::external_body]
fn sum_is_zero(element: &Vec<u8>, secret: &Vec<u8>) -> (r: bool)
    ensures
        r == cancels(element@, secret@),
{
    (Fr::from_be_bytes_mod_order(element) + Fr::from_be_bytes_mod_order(secret)).is_zero()
}

/// `base64::engine::general_purpose::STANDARD.encode`. The contract names the
/// text, and says that no other bytes are written as the same text: the
/// engine's `decode` gives the bytes back.
#[verifier::external_body]
fn encode_base64(bytes: &Vec<u8>) -> (r: String)
    ensures
        r@ == base64_text(bytes@),
        forall|b: Seq<u8>| #[trigger] base64_text(b) == r@ ==> b == bytes@,
{
    base64::engine::general_purpose::STANDARD.encode(bytes)
}

/// `base64::engine::general_purpose::STANDARD.decode`. That engine asks for
/// canonical padding and refuses trailing bits, so it accepts a text exactly
/// when the text is the encoding of some bytes, and then returns those bytes.
#[verifier::external_body]
fn decode_base64(text: &str) -> (r: Option<Vec<u8>>)
    ensures
        match r {
            Some(v) => text@ == base64_text(v@) && forall|b: Seq<u8>|
                #[trigger] base64_text(b) == text@ ==> b == v@,
            None => forall|b: Seq<u8>| #[trigger] base64_text(b) != text@,
        },
{
    base64::engine::general_purpose::STANDARD.decode(text).ok()
}

/// `deserialize_compressed` of `vb_accumulator`'s `PositiveAccumulator`, then
/// `serialize_compressed` of what was read. The contract names the bytes
/// written; none where reading fails.
#[verifier::external_body]
fn read_accumulator(bytes: &Vec<u8>) -> (r: Option<Vec<u8>>)
    ensures
        match r {
            Some(v) => accumulator_reading(bytes@) == Some(v@),
            None => accumulator_reading(bytes@) is None,
        },
{
    let value = positive::PositiveAccumulator::<G1Affine>::deserialize_compressed(&bytes[..]).ok()?;
    let mut out = Vec::new();
    value.serialize_compressed(&mut out).ok()?;
    Some(out)
}

/// `deserialize_compressed` of `vb_accumulator`'s `MembershipWitness`, then
/// `serialize_compressed` of what was read. The contract names the bytes
/// written; none where reading fails.
#[verifier::external_body]
fn read_witness(bytes: &Vec<u8>) -> (r: Option<Vec<u8>>)
    ensures
        match r {
            Some(v) => witness_reading(bytes@) == Some(v@),
            None => witness_reading(bytes@) is None,
        },
{
    let value = witness::MembershipWitness::<G1Affine>::deserialize_compressed(&bytes[..]).ok()?;
    let mut out = Vec::new();
    value.serialize_compressed(&mut out).ok()?;
    Some(out)
}

/// `deserialize_compressed` of `vb_accumulator`'s `PublicKey`, then
/// `serialize_compressed` of what was read. The contract names the bytes
/// written; none where reading fails.
#[verifier::external_body]
fn read_public_key(bytes: &Vec<u8>) -> (r: Option<Vec<u8>>)
    ensures
        match r {
            Some(v) => public_key_reading(bytes@) == Some(v@),
            None => public_key_reading(bytes@) is None,
        },
{
    let value = setup::PublicKey::<Bn254>::deserialize_compressed(&bytes[..]).ok()?;
    let mut out = Vec::new();
    value.serialize_compressed(&mut out).ok()?;
    Some(out)
}

/// `SetupParams::generate_using_rng` of `vb_accumulator`, on a `StdRng` seeded
/// with `seed`, written with `serialize_compressed`. The contract names the
/// bytes.
#[verifier::external_body]
fn draw_params(seed: u64) -> (r: Vec<u8>)
    ensures
        r@ == seeded_params(seed),
{
    let params = setup::SetupParams::<Bn254>::generate_using_rng(&mut StdRng::seed_from_u64(seed));
    let mut out = Vec::new();
    params.serialize_compressed(&mut out).unwrap();
    out
}

/// `Keypair::generate_using_rng` of `vb_accumulator`, on a `StdRng` seeded with
/// `seed`. The contract names the pair; the secret scalar is written in 32
/// big-endian bytes and the public key is a point that writes as it reads.
#[verifier::external_body]
fn draw_keypair(seed: u64, params: &Vec<u8>) -> (r: (Vec<u8>, Vec<u8>))
    requires
        is_params(params@),
    ensures
        (r.0@, r.1@) == seeded_keypair(seed, params@),
        is_scalar(r.0@),
        is_public_key(r.1@),
{
    let p = setup::SetupParams::<Bn254>::deserialize_compressed(&params[..]).unwrap();
    let pair = setup::Keypair::<Bn254>::generate_using_rng(&mut StdRng::seed_from_u64(seed), &p);
    let mut public = Vec::new();
    pair.public_key.serialize_compressed(&mut public).unwrap();
    (pair.secret_key.0.into_bigint().to_bytes_be(), public)
}

/// `PositiveAccumulator::initialize` of `vb_accumulator`. The contract names
/// the value, which writes as it reads.
#[verifier::external_body]
fn first_value(params: &Vec<u8>) -> (r: Vec<u8>)
    requires
        is_params(params@),
    ensures
        r@ == initial_value(params@),
        is_accumulator(r@),
{
    let p = setup::SetupParams::<Bn254>::deserialize_compressed(&params[..]).unwrap();
    let value = positive::PositiveAccumulator::<G1Affine>::initialize(&p);
    let mut out = Vec::new();
    value.serialize_compressed(&mut out).unwrap();
    out
}

/// `SetupParams::is_valid` of `vb_accumulator`. The contract names the
/// answer.
#[verifier::external_body]
fn check_params(params: &Vec<u8>) -> (r: bool)
    requires
        is_params(params@),
    ensures
        r == params_valid(params@),
{
    setup::SetupParams::<Bn254>::deserialize_compressed(&params[..]).unwrap().is_valid()
}

/// `PublicKey::is_valid` of `vb_accumulator`. The contract names the answer.
#[verifier::external_body]
fn check_public_key(public_key: &Vec<u8>) -> (r: bool)
    requires
        is_public_key(public_key@),
    ensures
        r == public_key_valid(public_key@),
{
    setup::PublicKey::<Bn254>::deserialize_compressed(&public_key[..]).unwrap().is_valid()
}

/// The bytes of each scalar of a list.
pub open spec fn scalar_bytes(elements: Seq<Scalar>) -> Seq<Seq<u8>> {
    Seq::new(elements.len(), |i: int| elements[i]@)
}

/// The bytes of each item of a list of byte strings.
pub open spec fn byte_strings(items: Seq<Vec<u8>>) -> Seq<Seq<u8>> {
    Seq::new(items.len(), |i: int| items[i]@)
}

/// Whether `witness` verifies for `element` against `value` under every
/// public key that was drawn together with `secret`.
pub open spec fn verifies_under_key(
    value: Seq<u8>,
    element: Seq<u8>,
    witness: Seq<u8>,
    secret: Seq<u8>,
) -> bool {
    forall|seed: u64, params: Seq<u8>|
        is_params(params) && (#[trigger] seeded_keypair(seed, params)).0 == secret
            ==> membership_holds(value, element, witness, seeded_keypair(seed, params).1, params)
}

/// `PositiveAccumulator::compute_new_post_add` of `vb_accumulator`. The
/// contract names the new value, which writes as it reads.
#[verifier::external_body]
fn post_add(value: &Vec<u8>, element: &Vec<u8>, secret: &Vec<u8>) -> (r: Vec<u8>)
    requires
        is_accumulator(value@),
    ensures
        r@ == after_add(value@, element@, secret@),
        is_accumulator(r@),
{
    let v = positive::PositiveAccumulator::<G1Affine>::deserialize_compressed(&value[..]).unwrap();
    let k = setup::SecretKey(Fr::from_be_bytes_mod_order(secret));
    let next = v.compute_new_post_add(&Fr::from_be_bytes_mod_order(element), &k);
    let mut out = Vec::new();
    positive::PositiveAccumulator::from_value(next).serialize_compressed(&mut out).unwrap();
    out
}

/// `PositiveAccumulator::compute_new_post_add_batch` of `vb_accumulator`. The
/// contract names the new value, which writes as it reads.
#[verifier::external_body]
fn post_add_batch(value: &Vec<u8>, elements: &Vec<Scalar>, secret: &Vec<u8>) -> (r: Vec<u8>)
    requires
        is_accumulator(value@),
    ensures
        r@ == after_add_batch(value@, scalar_bytes(elements@), secret@),
        is_accumulator(r@),
{
    let v = positive::PositiveAccumulator::<G1Affine>::deserialize_compressed(&value[..]).unwrap();
    let k = setup::SecretKey(Fr::from_be_bytes_mod_order(secret));
    let e: Vec<Fr> = elements.iter().map(|e| Fr::from_be_bytes_mod_order(&e.bytes)).collect();
    let mut out = Vec::new();
    let next = v.compute_new_post_add_batch(&e, &k);
    positive::PositiveAccumulator::from_value(next).serialize_compressed(&mut out).unwrap();
    out
}

/// `PositiveAccumulator::compute_new_post_remove` of `vb_accumulator`, which
/// multiplies the value by the inverse of the sum of element and key, where
/// `compute_new_post_add` multiplies by that sum: so it leads back from the
/// value that adding the same element gave. It cannot invert a sum that is
/// zero.
#[verifier::external_body]
fn post_remove(value: &Vec<u8>, element: &Vec<u8>, secret: &Vec<u8>) -> (r: Vec<u8>)
    requires
        is_accumulator(value@),
        !cancels(element@, secret@),
    ensures
        r@ == after_remove(value@, element@, secret@),
        is_accumulator(r@),
        forall|before: Seq<u8>|
            is_accumulator(before) && #[trigger] after_add(before, element@, secret@) == value@
                ==> r@ == before,
{
    let v = positive::PositiveAccumulator::<G1Affine>::deserialize_compressed(&value[..]).unwrap();
    let k = setup::SecretKey(Fr::from_be_bytes_mod_order(secret));
    let next = v.compute_new_post_remove(&Fr::from_be_bytes_mod_order(element), &k);
    let mut out = Vec::new();
    positive::PositiveAccumulator::from_value(next).serialize_compressed(&mut out).unwrap();
    out
}

/// `PositiveAccumulator::compute_membership_witness` of `vb_accumulator`,
/// which multiplies the value by the inverse of the sum of element and key.
/// The verifier's pairing equation holds of such a witness under the public
/// key of the same secret key. It cannot invert a sum that is zero.
#[verifier::external_body]
fn compute_witness(value: &Vec<u8>, element: &Vec<u8>, secret: &Vec<u8>) -> (r: Vec<u8>)
    requires
        is_accumulator(value@),
        !cancels(element@, secret@),
    ensures
        r@ == witness_of(value@, element@, secret@),
        is_witness(r@),
        verifies_under_key(value@, element@, r@, secret@),
{
    let v = positive::PositiveAccumulator::<G1Affine>::deserialize_compressed(&value[..]).unwrap();
    let k = setup::SecretKey(Fr::from_be_bytes_mod_order(secret));
    let mut out = Vec::new();
    let w = v.compute_membership_witness(&Fr::from_be_bytes_mod_order(element), &k);
    w.serialize_compressed(&mut out).unwrap();
    out
}

/// `PositiveAccumulator::compute_membership_witnesses_for_batch` of
/// `vb_accumulator`: one witness for each element, in the order of the
/// elements, each the value times the inverse of the sum of its element and
/// the key. The verifier's pairing equation holds of such a witness under
/// the public key of the same secret key. It is called where no sum is zero.
#[verifier::external_body]
fn compute_witnesses(value: &Vec<u8>, elements: &Vec<Scalar>, secret: &Vec<u8>) -> (r: Vec<Vec<u8>>)
    requires
        is_accumulator(value@),
        forall|i: int| 0 <= i < elements@.len() ==> !cancels(#[trigger] elements@[i]@, secret@),
    ensures
        byte_strings(r@) == witnesses_of(value@, scalar_bytes(elements@), secret@),
        r@.len() == elements@.len(),
        forall|i: int|
            0 <= i < r@.len() ==> is_witness(#[trigger] r@[i]@) && verifies_under_key(
                value@,
                elements@[i]@,
                r@[i]@,
                secret@,
            ),
{
    let v = positive::PositiveAccumulator::<G1Affine>::deserialize_compressed(&value[..]).unwrap();
    let k = setup::SecretKey(Fr::from_be_bytes_mod_order(secret));
    let e: Vec<Fr> = elements.iter().map(|e| Fr::from_be_bytes_mod_order(&e.bytes)).collect();
    let mut out = Vec::new();
    for w in v.compute_membership_witnesses_for_batch(&e, &k) {
        let mut bytes = Vec::new();
        w.serialize_compressed(&mut bytes).unwrap();
        out.push(bytes);
    }
    out
}

/// `PositiveAccumulator::verify_membership` of `vb_accumulator`. The contract
/// names the answer.
#[verifier::external_body]
fn check_membership(
    value: &Vec<u8>,
    element: &Vec<u8>,
    witness: &Vec<u8>,
    public_key: &Vec<u8>,
    params: &Vec<u8>,
) -> (r: bool)
    requires
        is_accumulator(value@),
        is_witness(witness@),
        is_public_key(public_key@),
        is_params(params@),
    ensures
        r == membership_holds(value@, element@, witness@, public_key@, params@),
{
    let v = positive::PositiveAccumulator::<G1Affine>::deserialize_compressed(&value[..]).unwrap();
    let w = witness::MembershipWitness::<G1Affine>::deserialize_compressed(&witness[..]).unwrap();
    let k = setup::PublicKey::<Bn254>::deserialize_compressed(&public_key[..]).unwrap();
    let p = setup::SetupParams::<Bn254>::deserialize_compressed(&params[..]).unwrap();
    v.verify_membership(&Fr::from_be_bytes_mod_order(element), &w, &k, &p)
}

/// A scalar of the field: a number below the order, in 32 big-endian bytes.
#[derive(Debug)]
pub struct Scalar {
    bytes: Vec<u8>,
}

impl Scalar {
    #[verifier::type_invariant]
    spec fn inv(self) -> bool {
        is_scalar(self.bytes@)
    }

    /// The 32 bytes of the scalar.
    pub closed spec fn view(&self) -> Seq<u8> {
        self.bytes@
    }

    /// The number that the scalar is.
    pub open spec fn value(&self) -> nat {
        be_value(self@)
    }

    /// The scalar that `bytes` write, most significant byte first, reduced by
    /// the order.
    pub fn from_be_bytes_mod_order(bytes: &Vec<u8>) -> (r: Scalar)
        ensures
            r@ == be_bytes(be_value(bytes@) % scalar_order(), 32),
            r.value() == be_value(bytes@) % scalar_order(),
            is_scalar(r@),
    {
        let reduced = reduce_scalar(bytes);
        proof {
            lemma_be_bytes_of_value(reduced@);
        }
        Scalar { bytes: reduced }
    }

    /// The 32 bytes of the scalar, most significant first.
    pub fn to_be_bytes(&self) -> (r: Vec<u8>)
        ensures
            r@ == self@,
            is_scalar(r@),
    {
        proof {
            use_type_invariant(self);
        }
        self.bytes.clone()
    }

    /// Whether two scalars are the same number.
    pub fn equals(&self, other: &Scalar) -> (r: bool)
        ensures
            r == (self@ == other@),
    {
        bytes_equal(&self.bytes, &other.bytes)
    }
}

impl Clone for Scalar {
    fn clone(&self) -> (r: Self)
        ensures
            r@ == self@,
    {
        proof {
            use_type_invariant(self);
        }
        Scalar { bytes: self.bytes.clone() }
    }
}

/// The secret scalar of the party that keeps the accumulator. It has no copy
/// and no transport encoding.
pub struct SecretKey {
    bytes: Vec<u8>,
}

impl SecretKey {
    #[verifier::type_invariant]
    spec fn inv(self) -> bool {
        is_scalar(self.bytes@)
    }

    /// The 32 bytes of the scalar.
    pub closed spec fn view(&self) -> Seq<u8> {
        self.bytes@
    }
}

/// The public key: a point of the second group.
#[derive(Debug)]
pub struct PublicKey {
    bytes: Vec<u8>,
}

impl PublicKey {
    #[verifier::type_invariant]
    spec fn inv(self) -> bool {
        is_public_key(self.bytes@)
    }

    /// The canonical bytes of the point.
    pub closed spec fn view(&self) -> Seq<u8> {
        self.bytes@
    }

    /// Whether the key can be used: it is not the point at infinity.
    pub fn is_valid(&self) -> (r: bool)
        ensures
            r == public_key_valid(self@),
    {
        proof {
            use_type_invariant(self);
        }
        check_public_key(&self.bytes)
    }
}

impl Clone for PublicKey {
    fn clone(&self) -> (r: Self)
        ensures
            r@ == self@,
    {
        proof {
            use_type_invariant(self);
        }
        PublicKey { bytes: self.bytes.clone() }
    }
}

/// A secret key and the public key that belongs to it.
pub struct Keypair {
    pub secret_key: SecretKey,
    pub public_key: PublicKey,
}

/// The public parameters of the curve, drawn from a seed.
#[derive(Debug)]
pub struct SetupParams {
    bytes: Vec<u8>,
}

impl SetupParams {
    #[verifier::type_invariant]
    spec fn inv(self) -> bool {
        is_params(self.bytes@)
    }

    /// The bytes of the parameters.
    pub closed spec fn view(&self) -> Seq<u8> {
        self.bytes@
    }

    /// Whether the parameters can be used: neither of their points is the
    /// point at infinity.
    pub fn is_valid(&self) -> (r: bool)
        ensures
            r == params_valid(self@),
    {
        proof {
            use_type_invariant(self);
        }
        check_params(&self.bytes)
    }
}

impl Clone for SetupParams {
    fn clone(&self) -> (r: Self)
        ensures
            r@ == self@,
    {
        proof {
            use_type_invariant(self);
        }
        SetupParams { bytes: self.bytes.clone() }
    }
}

/// A membership witness: a point of the curve.
#[derive(Debug)]
pub struct MembershipWitness {
    bytes: Vec<u8>,
}

impl MembershipWitness {
    #[verifier::type_invariant]
    spec fn inv(self) -> bool {
        is_witness(self.bytes@)
    }

    /// The canonical bytes of the point.
    pub closed spec fn view(&self) -> Seq<u8> {
        self.bytes@
    }
}

impl Clone for MembershipWitness {
    fn clone(&self) -> (r: Self)
        ensures
            r@ == self@,
    {
        proof {
            use_type_invariant(self);
        }
        MembershipWitness { bytes: self.bytes.clone() }
    }
}

/// Why the accumulator refuses an operation.
#[derive(Debug, Clone, Copy, PartialEq, Eq)]
pub enum AccumulatorError {
    /// The element to add is a member already.
    ElementPresent,
    /// The element to remove, or to witness, is no member.
    ElementAbsent,
    /// The element occurs earlier in the same batch.
    RepeatedElement,
    /// The element and the secret key add up to zero, so that their sum
    /// cannot be inverted.
    KeyCollision,
    /// The parameters or the public key hold the point at infinity.
    InvalidSetup,
}

impl AccumulatorError {
    /// The name of the variant.
    pub open spec fn spec_name(self) -> Seq<char> {
        match self {
            AccumulatorError::ElementPresent => "ElementPresent"@,
            AccumulatorError::ElementAbsent => "ElementAbsent"@,
            AccumulatorError::RepeatedElement => "RepeatedElement"@,
            AccumulatorError::KeyCollision => "KeyCollision"@,
            AccumulatorError::InvalidSetup => "InvalidSetup"@,
        }
    }

    /// The name of the variant, as a string.
    pub fn name(&self) -> (r: String)
        ensures
            r@ == self.spec_name(),
    {
        match self {
            AccumulatorError::ElementPresent => "ElementPresent".to_owned(),
            AccumulatorError::ElementAbsent => "ElementAbsent".to_owned(),
            AccumulatorError::RepeatedElement => "RepeatedElement".to_owned(),
            AccumulatorError::KeyCollision => "KeyCollision".to_owned(),
            AccumulatorError::InvalidSetup => "InvalidSetup".to_owned(),
        }
    }
}

/// Why `element` cannot join `members`, `earlier` being what the same batch
/// holds before it; none where it can.
pub open spec fn add_refusal(
    members: Seq<Seq<u8>>,
    earlier: Seq<Seq<u8>>,
    element: Seq<u8>,
) -> Option<AccumulatorError> {
    if members.contains(element) {
        Some(AccumulatorError::ElementPresent)
    } else if earlier.contains(element) {
        Some(AccumulatorError::RepeatedElement)
    } else {
        None
    }
}

/// Why the batch `elements` cannot join `members`: the refusal of its first
/// element that is refused; none where all can join.
pub open spec fn batch_refusal(members: Seq<Seq<u8>>, elements: Seq<Seq<u8>>) -> Option<
    AccumulatorError,
>
    decreases elements.len(),
{
    if elements.len() == 0 {
        None
    } else {
        match batch_refusal(members, elements.drop_last()) {
            Some(e) => Some(e),
            None => add_refusal(members, elements.drop_last(), elements.last()),
        }
    }
}

/// Why `element` cannot be removed from `members` or witnessed alone in
/// them; none where it can. The sum of a member and the key has to be
/// inverted, so a member that cancels the key is refused.
pub open spec fn member_refusal(
    members: Seq<Seq<u8>>,
    element: Seq<u8>,
    secret: Seq<u8>,
) -> Option<AccumulatorError> {
    if !members.contains(element) {
        Some(AccumulatorError::ElementAbsent)
    } else if cancels(element, secret) {
        Some(AccumulatorError::KeyCollision)
    } else {
        None
    }
}

/// Why the list `elements` cannot be witnessed in `members`: the refusal of
/// its first element that is refused; none where all can.
pub open spec fn members_refusal(
    members: Seq<Seq<u8>>,
    elements: Seq<Seq<u8>>,
    secret: Seq<u8>,
) -> Option<AccumulatorError>
    decreases elements.len(),
{
    if elements.len() == 0 {
        None
    } else {
        match members_refusal(members, elements.drop_last(), secret) {
            Some(e) => Some(e),
            None => member_refusal(members, elements.last(), secret),
        }
    }
}

/// A list is refused as its first refused prefix is.
pub proof fn lemma_members_refusal_prefix(
    members: Seq<Seq<u8>>,
    elements: Seq<Seq<u8>>,
    secret: Seq<u8>,
    k: int,
)
    requires
        0 <= k <= elements.len(),
        members_refusal(members, elements.take(k), secret) is Some,
    ensures
        members_refusal(members, elements, secret) == members_refusal(
            members,
            elements.take(k),
            secret,
        ),
    decreases elements.len(),
{
    if k == elements.len() {
        assert(elements.take(k) == elements);
    } else {
        assert(elements.drop_last().take(k) == elements.take(k));
        lemma_members_refusal_prefix(members, elements.drop_last(), secret, k);
    }
}

/// A list is not refused exactly when each of its elements is a member that
/// does not cancel the key.
pub proof fn lemma_members_accepted(members: Seq<Seq<u8>>, elements: Seq<Seq<u8>>, secret: Seq<u8>)
    ensures
        members_refusal(members, elements, secret) is None <==> forall|i: int|
            0 <= i < elements.len() ==> members.contains(#[trigger] elements[i]) && !cancels(
                elements[i],
                secret,
            ),
    decreases elements.len(),
{
    if elements.len() > 0 {
        let front = elements.drop_last();
        lemma_members_accepted(members, front, secret);
        assert(elements.last() == elements[elements.len() - 1]);
        if members_refusal(members, elements, secret) is None {
            assert forall|i: int| 0 <= i < elements.len() implies members.contains(
                #[trigger] elements[i],
            ) && !cancels(elements[i], secret) by {
                if i < elements.len() - 1 {
                    assert(front[i] == elements[i]);
                }
            }
        }
        if forall|i: int|
            0 <= i < elements.len() ==> members.contains(#[trigger] elements[i]) && !cancels(
                elements[i],
                secret,
            ) {
            assert forall|i: int| 0 <= i < front.len() implies members.contains(
                #[trigger] front[i],
            ) && !cancels(front[i], secret) by {
                assert(front[i] == elements[i]);
            }
        }
    }
}

/// A batch is refused as its first refused prefix is.
pub proof fn lemma_batch_refusal_prefix(members: Seq<Seq<u8>>, elements: Seq<Seq<u8>>, k: int)
    requires
        0 <= k <= elements.len(),
        batch_refusal(members, elements.take(k)) is Some,
    ensures
        batch_refusal(members, elements) == batch_refusal(members, elements.take(k)),
    decreases elements.len(),
{
    if k == elements.len() {
        assert(elements.take(k) == elements);
    } else {
        assert(elements.drop_last().take(k) == elements.take(k));
        lemma_batch_refusal_prefix(members, elements.drop_last(), k);
    }
}

/// A batch is refused exactly when it holds a member or holds an element
/// twice.
pub proof fn lemma_batch_accepted(members: Seq<Seq<u8>>, elements: Seq<Seq<u8>>)
    ensures
        batch_refusal(members, elements) is None <==> distinct(elements) && forall|i: int|
            0 <= i < elements.len() ==> !members.contains(#[trigger] elements[i]),
    decreases elements.len(),
{
    if elements.len() > 0 {
        let front = elements.drop_last();
        let last = elements.last();
        lemma_batch_accepted(members, front);
        assert(elements[elements.len() - 1] == last);
        if batch_refusal(members, elements) is None {
            assert forall|i: int, j: int| 0 <= i < j < elements.len() implies #[trigger] elements[i]
                != #[trigger] elements[j] by {
                if j == elements.len() - 1 {
                    assert(front[i] == elements[i]);
                } else {
                    assert(front[i] == elements[i] && front[j] == elements[j]);
                }
            }
            assert forall|i: int| 0 <= i < elements.len() implies !members.contains(
                #[trigger] elements[i],
            ) by {
                if i < elements.len() - 1 {
                    assert(front[i] == elements[i]);
                }
            }
        }
        if distinct(elements) && forall|i: int|
            0 <= i < elements.len() ==> !members.contains(#[trigger] elements[i]) {
            assert forall|i: int, j: int| 0 <= i < j < front.len() implies #[trigger] front[i]
                != #[trigger] front[j] by {
                assert(front[i] == elements[i] && front[j] == elements[j]);
            }
            assert forall|i: int| 0 <= i < front.len() implies !members.contains(
                #[trigger] front[i],
            ) by {
                assert(front[i] == elements[i]);
            }
            if front.contains(last) {
                let at = choose|i: int| 0 <= i < front.len() && front[i] == last;
                assert(elements[at] == front[at]);
            }
        }
    }
}

/// A batch in which an element occurs twice is refused, whatever the
/// members.
pub proof fn lemma_repeated_element_refused(
    members: Seq<Seq<u8>>,
    elements: Seq<Seq<u8>>,
    i: int,
    j: int,
)
    requires
        0 <= i < j < elements.len(),
        elements[i] == elements[j],
    ensures
        batch_refusal(members, elements) is Some,
{
    lemma_batch_accepted(members, elements);
}

/// The value of a positive accumulator: a point of the curve that commits to
/// the set of its members.
#[derive(Debug)]
pub struct PositiveAccumulator {
    bytes: Vec<u8>,
}

impl Clone for PositiveAccumulator {
    fn clone(&self) -> (r: Self)
        ensures
            r@ == self@,
    {
        proof {
            use_type_invariant(self);
        }
        PositiveAccumulator { bytes: self.bytes.clone() }
    }
}

impl PositiveAccumulator {
    #[verifier::type_invariant]
    spec fn inv(self) -> bool {
        is_accumulator(self.bytes@)
    }

    /// The canonical bytes of the point.
    pub closed spec fn view(&self) -> Seq<u8> {
        self.bytes@
    }

    /// The accumulator without members.
    pub fn initialize(params: &SetupParams) -> (r: Self)
        ensures
            r@ == initial_value(params@),
            is_accumulator(r@),
    {
        proof {
            use_type_invariant(params);
        }
        PositiveAccumulator { bytes: first_value(&params.bytes) }
    }

    /// Whether two accumulators have the same value.
    pub fn equals(&self, other: &PositiveAccumulator) -> (r: bool)
        ensures
            r == (self@ == other@),
    {
        bytes_equal(&self.bytes, &other.bytes)
    }

    /// Adds `element`. A member is refused, and nothing changes then.
    pub fn add(&self, element: Scalar, sk: &SecretKey, state: &mut InMemoryState) -> (r: Result<
        Self,
        AccumulatorError,
    >)
        ensures
            match r {
                Ok(next) => {
                    &&& !old(state)@.contains(element@)
                    &&& next@ == after_add(self@, element@, sk@)
                    &&& is_accumulator(next@)
                    &&& final(state)@ == old(state)@.push(element@)
                },
                Err(e) => {
                    &&& old(state)@.contains(element@)
                    &&& e == AccumulatorError::ElementPresent
                    &&& final(state)@ == old(state)@
                },
            },
    {
        proof {
            use_type_invariant(self);
        }
        if state.has(&element) {
            return Err(AccumulatorError::ElementPresent);
        }
        let next = post_add(&self.bytes, &element.bytes, &sk.bytes);
        state.add(element);
        Ok(PositiveAccumulator { bytes: next })
    }

    /// Adds all of `elements`, or none: a batch that holds a member or holds
    /// an element twice is refused, and nothing changes then.
    pub fn add_batch(&self, elements: Vec<Scalar>, sk: &SecretKey, state: &mut InMemoryState) -> (r:
        Result<Self, AccumulatorError>)
        ensures
            match r {
                Ok(next) => {
                    &&& batch_refusal(old(state)@, scalar_bytes(elements@)) is None
                    &&& next@ == after_add_batch(self@, scalar_bytes(elements@), sk@)
                    &&& is_accumulator(next@)
                    &&& final(state)@ == old(state)@ + scalar_bytes(elements@)
                },
                Err(e) => {
                    &&& batch_refusal(old(state)@, scalar_bytes(elements@)) == Some(e)
                    &&& final(state)@ == old(state)@
                },
            },
    {
        proof {
            use_type_invariant(self);
        }
        let ghost members = state@;
        let ghost batch = scalar_bytes(elements@);
        let mut i: usize = 0;
        while i < elements.len()
            invariant
                i <= elements@.len(),
                state@ == members,
                batch == scalar_bytes(elements@),
                batch_refusal(members, batch.take(i as int)) is None,
            decreases elements@.len() - i,
        {
            let ghost next = batch.take(i + 1);
            assert(next.drop_last() == batch.take(i as int));
            assert(next.last() == elements@[i as int]@);
            let mut refusal: Option<AccumulatorError> = None;
            if state.has(&elements[i]) {
                refusal = Some(AccumulatorError::ElementPresent);
            } else if occurs_before(&elements, i) {
                refusal = Some(AccumulatorError::RepeatedElement);
            }
            assert(refusal == add_refusal(members, batch.take(i as int), batch[i as int]));
            match refusal {
                Some(e) => {
                    proof {
                        lemma_batch_refusal_prefix(members, batch, i + 1);
                    }
                    return Err(e);
                },
                None => {},
            }
            i = i + 1;
        }
        proof {
            assert(batch.take(elements@.len() as int) == batch);
            lemma_batch_accepted(members, batch);
        }
        let next = post_add_batch(&self.bytes, &elements, &sk.bytes);
        state.extend(&elements);
        Ok(PositiveAccumulator { bytes: next })
    }

    /// Removes `element`. An element that is no member is refused, and so is
    /// one that cancels the key; nothing changes then. Removing leads back
    /// from the value that adding the same element gave.
    pub fn remove(&self, element: &Scalar, sk: &SecretKey, state: &mut InMemoryState) -> (r:
        Result<Self, AccumulatorError>)
        ensures
            match r {
                Ok(next) => {
                    &&& member_refusal(old(state)@, element@, sk@) is None
                    &&& next@ == after_remove(self@, element@, sk@)
                    &&& is_accumulator(next@)
                    &&& final(state)@ == without_element(old(state)@, element@)
                    &&& !final(state)@.contains(element@)
                    &&& forall|before: Seq<u8>|
                        is_accumulator(before) && self@ == #[trigger] after_add(
                            before,
                            element@,
                            sk@,
                        ) ==> next@ == before
                },
                Err(e) => {
                    &&& member_refusal(old(state)@, element@, sk@) == Some(e)
                    &&& final(state)@ == old(state)@
                },
            },
    {
        proof {
            use_type_invariant(self);
        }
        if !state.has(element) {
            return Err(AccumulatorError::ElementAbsent);
        }
        if sum_is_zero(&element.bytes, &sk.bytes) {
            return Err(AccumulatorError::KeyCollision);
        }
        let next = post_remove(&self.bytes, &element.bytes, &sk.bytes);
        state.remove(element);
        Ok(PositiveAccumulator { bytes: next })
    }

    /// The witness of the member `element`. An element that is no member is
    /// refused, and so is one that cancels the key. The witness verifies
    /// against this value under the public key that belongs to `sk`.
    pub fn get_membership_witness(
        &self,
        member: &Scalar,
        sk: &SecretKey,
        state: &InMemoryState,
    ) -> (r: Result<MembershipWitness, AccumulatorError>)
        ensures
            match r {
                Ok(w) => {
                    &&& member_refusal(state@, member@, sk@) is None
                    &&& w@ == witness_of(self@, member@, sk@)
                    &&& is_witness(w@)
                    &&& verifies_under_key(self@, member@, w@, sk@)
                },
                Err(e) => member_refusal(state@, member@, sk@) == Some(e),
            },
    {
        proof {
            use_type_invariant(self);
        }
        if !state.has(member) {
            return Err(AccumulatorError::ElementAbsent);
        }
        if sum_is_zero(&member.bytes, &sk.bytes) {
            return Err(AccumulatorError::KeyCollision);
        }
        let w = compute_witness(&self.bytes, &member.bytes, &sk.bytes);
        Ok(MembershipWitness { bytes: w })
    }

    /// The witnesses of `members`, in their order, or none at all: the list
    /// is refused at its first element that is no member or cancels the key,
    /// as a single element is. Each witness verifies against this value under
    /// the public key that belongs to `sk`.
    pub fn get_membership_witnesses_for_batch(
        &self,
        members: &Vec<Scalar>,
        sk: &SecretKey,
        state: &InMemoryState,
    ) -> (r: Result<Vec<MembershipWitness>, AccumulatorError>)
        ensures
            match r {
                Ok(list) => {
                    &&& members_refusal(state@, scalar_bytes(members@), sk@) is None
                    &&& list@.len() == members@.len()
                    &&& witness_bytes(list@) == witnesses_of(self@, scalar_bytes(members@), sk@)
                    &&& forall|i: int|
                        0 <= i < list@.len() ==> verifies_under_key(
                            self@,
                            members@[i]@,
                            (#[trigger] list@[i])@,
                            sk@,
                        )
                },
                Err(e) => members_refusal(state@, scalar_bytes(members@), sk@) == Some(e),
            },
    {
        proof {
            use_type_invariant(self);
        }
        let ghost wanted = scalar_bytes(members@);
        let mut i: usize = 0;
        while i < members.len()
            invariant
                i <= members@.len(),
                wanted == scalar_bytes(members@),
                members_refusal(state@, wanted.take(i as int), sk@) is None,
                forall|j: int| 0 <= j < i ==> !cancels(#[trigger] members@[j]@, sk@),
            decreases members@.len() - i,
        {
            let ghost next = wanted.take(i + 1);
            assert(next.drop_last() == wanted.take(i as int));
            assert(next.last() == members@[i as int]@);
            let mut refusal: Option<AccumulatorError> = None;
            if !state.has(&members[i]) {
                refusal = Some(AccumulatorError::ElementAbsent);
            } else if sum_is_zero(&members[i].bytes, &sk.bytes) {
                refusal = Some(AccumulatorError::KeyCollision);
            }
            assert(refusal == member_refusal(state@, wanted[i as int], sk@));
            match refusal {
                Some(e) => {
                    proof {
                        lemma_members_refusal_prefix(state@, wanted, sk@, i + 1);
                    }
                    return Err(e);
                },
                None => {},
            }
            i = i + 1;
        }
        assert(wanted.take(members@.len() as int) == wanted);
        let found = compute_witnesses(&self.bytes, members, &sk.bytes);
        let mut list: Vec<MembershipWitness> = Vec::new();
        let mut k: usize = 0;
        while k < found.len()
            invariant
                k <= found@.len(),
                list@.len() == k,
                forall|j: int| 0 <= j < found@.len() ==> is_witness(#[trigger] found@[j]@),
                forall|j: int| 0 <= j < k ==> (#[trigger] list@[j])@ == found@[j]@,
            decreases found@.len() - k,
        {
            let bytes = found[k].clone();
            assert(bytes@ == found@[k as int]@);
            list.push(MembershipWitness { bytes });
            k = k + 1;
        }
        assert(witness_bytes(list@) =~= byte_strings(found@));
        Ok(list)
    }

    /// Whether `witness` shows `member` to be in this accumulator, under
    /// `pk` and `params`: the answer of the pairing check.
    pub fn verify_membership(
        &self,
        member: &Scalar,
        witness: &MembershipWitness,
        pk: &PublicKey,
        params: &SetupParams,
    ) -> (r: bool)
        ensures
            r == membership_holds(self@, member@, witness@, pk@, params@),
    {
        proof {
            use_type_invariant(self);
            use_type_invariant(witness);
            use_type_invariant(pk);
            use_type_invariant(params);
        }
        check_membership(&self.bytes, &member.bytes, &witness.bytes, &pk.bytes, &params.bytes)
    }
}

/// The bytes of each witness of a list.
pub open spec fn witness_bytes(list: Seq<MembershipWitness>) -> Seq<Seq<u8>> {
    Seq::new(list.len(), |i: int| list[i]@)
}

/// Whether the element at `at` occurs before that place in `elements`.
fn occurs_before(elements: &Vec<Scalar>, at: usize) -> (r: bool)
    requires
        at < elements@.len(),
    ensures
        r == scalar_bytes(elements@).take(at as int).contains(elements@[at as int]@),
{
    let ghost front = scalar_bytes(elements@).take(at as int);
    let mut j: usize = 0;
    while j < at
        invariant
            j <= at < elements@.len(),
            front == scalar_bytes(elements@).take(at as int),
            forall|k: int| 0 <= k < j ==> front[k] != elements@[at as int]@,
        decreases at - j,
    {
        if elements[j].equals(&elements[at]) {
            assert(front[j as int] == elements@[at as int]@);
            return true;
        }
        j = j + 1;
    }
    false
}

/// Why a transport string is refused.
#[derive(Debug, Clone, Copy, PartialEq, Eq)]
pub enum CodecError {
    /// The string is no base64 text.
    InvalidBase64,
    /// The bytes are not the canonical encoding of a point.
    InvalidFormat,
}

/// The bytes that the transport string `text` writes; none where it is no
/// base64 text.
pub open spec fn transport_bytes(text: Seq<char>) -> Option<Seq<u8>> {
    if forall|b: Seq<u8>| #[trigger] base64_text(b) != text {
        None
    } else {
        Some(choose|b: Seq<u8>| #[trigger] base64_text(b) == text)
    }
}

/// The accumulator value that a transport string stands for.
pub open spec fn accumulator_from_text(text: Seq<char>) -> Result<Seq<u8>, CodecError> {
    match transport_bytes(text) {
        None => Err(CodecError::InvalidBase64),
        Some(bytes) => if is_accumulator(bytes) {
            Ok(bytes)
        } else {
            Err(CodecError::InvalidFormat)
        },
    }
}

/// The witness that a transport string stands for.
pub open spec fn witness_from_text(text: Seq<char>) -> Result<Seq<u8>, CodecError> {
    match transport_bytes(text) {
        None => Err(CodecError::InvalidBase64),
        Some(bytes) => if is_witness(bytes) {
            Ok(bytes)
        } else {
            Err(CodecError::InvalidFormat)
        },
    }
}

/// The public key that a transport string stands for.
pub open spec fn public_key_from_text(text: Seq<char>) -> Result<Seq<u8>, CodecError> {
    match transport_bytes(text) {
        None => Err(CodecError::InvalidBase64),
        Some(bytes) => if is_public_key(bytes) {
            Ok(bytes)
        } else {
            Err(CodecError::InvalidFormat)
        },
    }
}

/// The parameters that the seed stands for.
pub fn generate_params(param_seed: u64) -> (r: SetupParams)
    ensures
        r@ == seeded_params(param_seed),
        is_params(r@),
{
    SetupParams { bytes: draw_params(param_seed) }
}

/// The parameters of `param_seed`, the key pair of `key_seed` under them, the
/// accumulator without members, and an empty registry.
pub fn initialize_accumulator(key_seed: u64, param_seed: u64) -> (r: (
    SetupParams,
    Keypair,
    PositiveAccumulator,
    InMemoryState,
))
    ensures
        r.0@ == seeded_params(param_seed),
        (r.1.secret_key@, r.1.public_key@) == seeded_keypair(key_seed, r.0@),
        r.2@ == initial_value(r.0@),
        is_accumulator(r.2@),
        r.3@ == Seq::<Seq<u8>>::empty(),
{
    let params = generate_params(param_seed);
    proof {
        use_type_invariant(&params);
    }
    let pair = draw_keypair(key_seed, &params.bytes);
    let keypair = Keypair {
        secret_key: SecretKey { bytes: pair.0 },
        public_key: PublicKey { bytes: pair.1 },
    };
    let accumulator = PositiveAccumulator::initialize(&params);
    let state = InMemoryState::new();
    (params, keypair, accumulator, state)
}

/// The scalar of a string: the SHA3-256 digest of its UTF-8 bytes, read as a
/// number, most significant byte first, and reduced by the order.
pub open spec fn spec_scalar_from_str(string: Seq<char>) -> nat {
    be_value(sha3_256(vstd::utf8::encode_utf8(string))) % scalar_order()
}

/// The bytes of the scalar of a string.
pub open spec fn scalar_of_str(string: Seq<char>) -> Seq<u8> {
    be_bytes(spec_scalar_from_str(string), 32)
}

/// Maps a string to a scalar of the field.
pub fn scalar_from_str(string: &str) -> (r: Scalar)
    ensures
        r@ == scalar_of_str(string@),
        r.value() == spec_scalar_from_str(string@),
        is_scalar(r@),
{
    let digest = hash_sha3_256(string.as_bytes());
    Scalar::from_be_bytes_mod_order(&digest)
}

/// The transport string of an accumulator value. The value is read back
/// from it.
pub fn serialize_accumulator(accumulator: PositiveAccumulator) -> (r: String)
    ensures
        r@ == base64_text(accumulator@),
        accumulator_from_text(r@) == Ok::<Seq<u8>, CodecError>(accumulator@),
{
    proof {
        use_type_invariant(&accumulator);
    }
    encode_base64(&accumulator.bytes)
}

/// The transport string of a witness. The witness is read back from it.
pub fn serialize_witness(witness: MembershipWitness) -> (r: String)
    ensures
        r@ == base64_text(witness@),
        witness_from_text(r@) == Ok::<Seq<u8>, CodecError>(witness@),
{
    proof {
        use_type_invariant(&witness);
    }
    encode_base64(&witness.bytes)
}

/// The transport string of a public key. The key is read back from it.
pub fn serialize_pk(pk: PublicKey) -> (r: String)
    ensures
        r@ == base64_text(pk@),
        public_key_from_text(r@) == Ok::<Seq<u8>, CodecError>(pk@),
{
    proof {
        use_type_invariant(&pk);
    }
    encode_base64(&pk.bytes)
}

/// Reads an accumulator value from its transport string. A value comes back
/// from the string that was written for it; the string of bytes that are no
/// canonical point is refused for its format, and a string that writes no
/// bytes is refused as no base64.
pub fn deserialize_accumulator(coords: String) -> (r: Result<PositiveAccumulator, CodecError>)
    ensures
        match r {
            Ok(a) => accumulator_from_text(coords@) == Ok::<Seq<u8>, CodecError>(a@),
            Err(e) => accumulator_from_text(coords@) == Err::<Seq<u8>, CodecError>(e),
        },
        forall|x: Seq<u8>|
            coords@ == #[trigger] base64_text(x) && is_accumulator(x) ==> (r matches Ok(a) && a@
                == x),
        forall|x: Seq<u8>|
            coords@ == #[trigger] base64_text(x) && !is_accumulator(x) ==> r matches Err(
                CodecError::InvalidFormat,
            ),
        (forall|x: Seq<u8>| coords@ != #[trigger] base64_text(x)) ==> r matches Err(
            CodecError::InvalidBase64,
        ),
{
    match decode_base64(coords.as_str()) {
        None => Err(CodecError::InvalidBase64),
        Some(bytes) => {
            match read_accumulator(&bytes) {
                Some(canonical) => {
                    if bytes_equal(&canonical, &bytes) {
                        Ok(PositiveAccumulator { bytes })
                    } else {
                        Err(CodecError::InvalidFormat)
                    }
                },
                None => Err(CodecError::InvalidFormat),
            }
        },
    }
}

/// Reads a witness from its transport string. A witness comes back from the
/// string that was written for it; the string of bytes that are no canonical
/// point is refused for its format, and a string that writes no bytes is
/// refused as no base64.
pub fn deserialize_witness(coords: String) -> (r: Result<MembershipWitness, CodecError>)
    ensures
        match r {
            Ok(a) => witness_from_text(coords@) == Ok::<Seq<u8>, CodecError>(a@),
            Err(e) => witness_from_text(coords@) == Err::<Seq<u8>, CodecError>(e),
        },
        forall|x: Seq<u8>|
            coords@ == #[trigger] base64_text(x) && is_witness(x) ==> (r matches Ok(a) && a@ == x),
        forall|x: Seq<u8>|
            coords@ == #[trigger] base64_text(x) && !is_witness(x) ==> r matches Err(
                CodecError::InvalidFormat,
            ),
        (forall|x: Seq<u8>| coords@ != #[trigger] base64_text(x)) ==> r matches Err(
            CodecError::InvalidBase64,
        ),
{
    match decode_base64(coords.as_str()) {
        None => Err(CodecError::InvalidBase64),
        Some(bytes) => {
            match read_witness(&bytes) {
                Some(canonical) => {
                    if bytes_equal(&canonical, &bytes) {
                        Ok(MembershipWitness { bytes })
                    } else {
                        Err(CodecError::InvalidFormat)
                    }
                },
                None => Err(CodecError::InvalidFormat),
            }
        },
    }
}

/// Reads a public key from its transport string. A key comes back from the
/// string that was written for it; the string of bytes that are no canonical
/// point is refused for its format, and a string that writes no bytes is
/// refused as no base64.
pub fn deserialize_pk(coords: String) -> (r: Result<PublicKey, CodecError>)
    ensures
        match r {
            Ok(a) => public_key_from_text(coords@) == Ok::<Seq<u8>, CodecError>(a@),
            Err(e) => public_key_from_text(coords@) == Err::<Seq<u8>, CodecError>(e),
        },
        forall|x: Seq<u8>|
            coords@ == #[trigger] base64_text(x) && is_public_key(x) ==> (r matches Ok(a) && a@
                == x),
        forall|x: Seq<u8>|
            coords@ == #[trigger] base64_text(x) && !is_public_key(x) ==> r matches Err(
                CodecError::InvalidFormat,
            ),
        (forall|x: Seq<u8>| coords@ != #[trigger] base64_text(x)) ==> r matches Err(
            CodecError::InvalidBase64,
        ),
{
    match decode_base64(coords.as_str()) {
        None => Err(CodecError::InvalidBase64),
        Some(bytes) => {
            match read_public_key(&bytes) {
                Some(canonical) => {
                    if bytes_equal(&canonical, &bytes) {
                        Ok(PublicKey { bytes })
                    } else {
                        Err(CodecError::InvalidFormat)
                    }
                },
                None => Err(CodecError::InvalidFormat),
            }
        },
    }
}

/// A list of the same scalars.
pub fn copy_scalars(elements: &Vec<Scalar>) -> (r: Vec<Scalar>)
    ensures
        scalar_bytes(r@) == scalar_bytes(elements@),
{
    let mut out: Vec<Scalar> = Vec::new();
    let mut i: usize = 0;
    while i < elements.len()
        invariant
            i <= elements@.len(),
            out@.len() == i,
            forall|j: int| 0 <= j < i ==> (#[trigger] out@[j])@ == elements@[j]@,
        decreases elements@.len() - i,
    {
        out.push(elements[i].clone());
        i = i + 1;
    }
    assert(scalar_bytes(out@) =~= scalar_bytes(elements@));
    out
}

/// The scalars of the four claims of the walk below.
pub open spec fn demo_batch() -> Seq<Seq<u8>> {
    seq![
        scalar_of_str("name::Albert Einstein"@),
        scalar_of_str(
            "address::112 Mercer Street, Princeton, Mercer County, New Jersey, United States"@,
        ),
        scalar_of_str("birthdate::14/03/1879"@),
        scalar_of_str("occupation::Theoretical physicist"@),
    ]
}

/// What the walk below comes to: the accumulator value that holds the four
/// claims, or why it is not reached.
pub open spec fn demo_outcome() -> Result<Seq<u8>, AccumulatorError> {
    let params = seeded_params(0);
    let pair = seeded_keypair(0, params);
    if !params_valid(params) || !public_key_valid(pair.1) {
        Err(AccumulatorError::InvalidSetup)
    } else if cancels(demo_batch()[0], pair.0) {
        Err(AccumulatorError::KeyCollision)
    } else {
        match batch_refusal(Seq::empty(), demo_batch()) {
            Some(e) => Err(e),
            None => match members_refusal(demo_batch(), demo_batch(), pair.0) {
                Some(e) => Err(e),
                None => Ok(after_add_batch(initial_value(params), demo_batch(), pair.0)),
            },
        }
    }
}

/// A walk through the accumulator's operations on four claims of one person:
/// check the parameters and the public key; add one claim and remove it
/// again, which leads back to the empty accumulator; add the four as a batch;
/// witness the first, alone and with the batch; verify both witnesses, which
/// hold. It returns the accumulator that holds the four.
pub fn acc_demo() -> (r: Result<PositiveAccumulator, AccumulatorError>)
    ensures
        match r {
            Ok(a) => demo_outcome() == Ok::<Seq<u8>, AccumulatorError>(a@),
            Err(e) => demo_outcome() == Err::<Seq<u8>, AccumulatorError>(e),
        },
{
    let (params, keypair, accumulator, mut state) = initialize_accumulator(0u64, 0u64);
    if !params.is_valid() || !keypair.public_key.is_valid() {
        return Err(AccumulatorError::InvalidSetup);
    }
    let elem = scalar_from_str("name::Albert Einstein");
    let mut batch_elem: Vec<Scalar> = Vec::new();
    batch_elem.push(scalar_from_str("name::Albert Einstein"));
    batch_elem.push(
        scalar_from_str(
            "address::112 Mercer Street, Princeton, Mercer County, New Jersey, United States",
        ),
    );
    batch_elem.push(scalar_from_str("birthdate::14/03/1879"));
    batch_elem.push(scalar_from_str("occupation::Theoretical physicist"));
    assert(scalar_bytes(batch_elem@) =~= demo_batch());
    let added = accumulator.add(elem.clone(), &keypair.secret_key, &mut state);
    let one = match added {
        Ok(one) => one,
        Err(e) => {
            return Err(e);
        },
    };
    assert(state@[0] == elem@);
    let removed = one.remove(&elem, &keypair.secret_key, &mut state);
    let empty = match removed {
        Ok(empty) => empty,
        Err(e) => {
            return Err(e);
        },
    };
    assert(empty@ == accumulator@);
    assert(state@ =~= Seq::<Seq<u8>>::empty());
    let filled = match empty.add_batch(copy_scalars(&batch_elem), &keypair.secret_key, &mut state) {
        Ok(filled) => filled,
        Err(e) => {
            return Err(e);
        },
    };
    proof {
        lemma_batch_accepted(Seq::empty(), demo_batch());
        assert(state@ =~= demo_batch());
        assert(state@[0] == elem@);
        assert forall|i: int| 0 <= i < demo_batch().len() implies state@.contains(
            #[trigger] demo_batch()[i],
        ) by {
            assert(state@[i] == demo_batch()[i]);
        }
    }
    let m_wit = match filled.get_membership_witness(&elem, &keypair.secret_key, &state) {
        Ok(w) => w,
        Err(e) => {
            return Err(e);
        },
    };
    let batch_wit = match filled.get_membership_witnesses_for_batch(
        &batch_elem,
        &keypair.secret_key,
        &state,
    ) {
        Ok(list) => list,
        Err(e) => {
            return Err(e);
        },
    };
    let alone = filled.verify_membership(&elem, &m_wit, &keypair.public_key, &params);
    let among = filled.verify_membership(&elem, &batch_wit[0], &keypair.public_key, &params);
    assert(alone && among);
    Ok(filled)
}

} // verus!
