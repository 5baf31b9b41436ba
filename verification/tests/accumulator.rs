use ark_bn254::{Bn254, G1Affine};
use ark_ff::{BigInteger, PrimeField};
use ark_serialize::CanonicalSerialize;
use base64::Engine;
use csd_jwt::accumulator::{
    acc_demo, deserialize_accumulator, deserialize_pk, deserialize_witness, initialize_accumulator,
    scalar_from_str, serialize_accumulator, serialize_pk, serialize_witness, AccumulatorError,
    CodecError, PositiveAccumulator, Scalar,
};
use rand::SeedableRng;
use vb_accumulator::setup::{Keypair, SetupParams};

#[test]
fn add_then_remove_leads_back() {
    let (_params, keypair, accumulator, mut state) = initialize_accumulator(0, 1);
    let element = scalar_from_str("a::\"1\"");
    let one = accumulator.add(element.clone(), &keypair.secret_key, &mut state).unwrap();
    assert!(!one.equals(&accumulator));
    assert_eq!(state.size(), 1);
    let back = one.remove(&element, &keypair.secret_key, &mut state).unwrap();
    assert!(back.equals(&accumulator));
    assert_eq!(state.size(), 0);
}

#[test]
fn witness_of_member_verifies() {
    let (params, keypair, accumulator, mut state) = initialize_accumulator(0, 1);
    let a = scalar_from_str("a::\"1\"");
    let b = scalar_from_str("b::\"2\"");
    let filled = accumulator
        .add_batch(vec![a.clone(), b.clone()], &keypair.secret_key, &mut state)
        .unwrap();
    let w = filled.get_membership_witness(&a, &keypair.secret_key, &state).unwrap();
    assert!(filled.verify_membership(&a, &w, &keypair.public_key, &params));
    assert!(!filled.verify_membership(&b, &w, &keypair.public_key, &params));
    assert!(!accumulator.verify_membership(&a, &w, &keypair.public_key, &params));
}

#[test]
fn batch_with_repeated_element_is_refused() {
    let (_params, keypair, accumulator, mut state) = initialize_accumulator(0, 1);
    let a = scalar_from_str("a::\"1\"");
    let r = accumulator.add_batch(vec![a.clone(), a.clone()], &keypair.secret_key, &mut state);
    assert_eq!(r.unwrap_err(), AccumulatorError::RepeatedElement);
    assert_eq!(state.size(), 0);
    assert!(!state.has(&a));
}

#[test]
fn transport_round_trip() {
    let (_params, keypair, accumulator, mut state) = initialize_accumulator(0, 1);
    let a = scalar_from_str("a::\"1\"");
    let one = accumulator.add(a.clone(), &keypair.secret_key, &mut state).unwrap();
    let w = one.get_membership_witness(&a, &keypair.secret_key, &state).unwrap();
    let text = serialize_accumulator(one.clone());
    assert!(deserialize_accumulator(text.clone()).unwrap().equals(&one));
    assert_eq!(
        serialize_accumulator(deserialize_accumulator(text).unwrap()),
        serialize_accumulator(one)
    );
    let wt = serialize_witness(w.clone());
    assert_eq!(serialize_witness(deserialize_witness(wt.clone()).unwrap()), wt);
    let kt = serialize_pk(keypair.public_key.clone());
    assert_eq!(serialize_pk(deserialize_pk(kt.clone()).unwrap()), kt);
}

#[test]
fn transport_refuses_bad_input() {
    assert_eq!(
        deserialize_accumulator("not base64!".to_string()).unwrap_err(),
        CodecError::InvalidBase64
    );
    assert_eq!(deserialize_accumulator("AAAA".to_string()).unwrap_err(), CodecError::InvalidFormat);
    assert_eq!(deserialize_witness("AAAA".to_string()).unwrap_err(), CodecError::InvalidFormat);
    assert_eq!(deserialize_pk("AAAA".to_string()).unwrap_err(), CodecError::InvalidFormat);
}

#[test]
fn demo_walk_ends_with_the_batch() {
    let filled: PositiveAccumulator = acc_demo().unwrap();
    let (_params, keypair, accumulator, mut state) = initialize_accumulator(0, 0);
    let batch = vec![
        scalar_from_str("name::Albert Einstein"),
        scalar_from_str(
            "address::112 Mercer Street, Princeton, Mercer County, New Jersey, United States",
        ),
        scalar_from_str("birthdate::14/03/1879"),
        scalar_from_str("occupation::Theoretical physicist"),
    ];
    let again = accumulator.add_batch(batch, &keypair.secret_key, &mut state).unwrap();
    assert!(filled.equals(&again));
}

fn hex(bytes: &[u8]) -> String {
    bytes.iter().map(|b| format!("{:02x}", b)).collect()
}

#[test]
fn scalar_is_the_reduced_digest() {
    // The digest of this string is below the order and stays as it is.
    assert_eq!(
        hex(&scalar_from_str("a::\"1\"").to_be_bytes()),
        "152817177b886a995bee1214c5eed512b71b7a291fe9dcdabd2b0ff71d077880"
    );
    // The digest of this one is above the order and is reduced.
    assert_eq!(
        hex(&scalar_from_str("name::Albert Einstein").to_be_bytes()),
        "2b600ba759f8016edb023b483581a2eb6a2d270ba9bf969ab79bc1b871174f70"
    );
    assert!(scalar_from_str("x").equals(&scalar_from_str("x")));
    assert!(!scalar_from_str("x").equals(&scalar_from_str("y")));
}

#[test]
fn scalar_from_bytes_is_reduced_by_the_order() {
    let order = "30644e72e131a029b85045b68181585d2833e84879b9709143e1f593f0000001";
    let mut bytes: Vec<u8> = (0..32)
        .map(|i| u8::from_str_radix(&order[2 * i..2 * i + 2], 16).unwrap())
        .collect();
    assert_eq!(hex(&Scalar::from_be_bytes_mod_order(&bytes).to_be_bytes()), "0".repeat(64));
    bytes[31] += 4;
    assert_eq!(
        hex(&Scalar::from_be_bytes_mod_order(&bytes).to_be_bytes()),
        format!("{}04", "0".repeat(62))
    );
    assert_eq!(
        hex(&Scalar::from_be_bytes_mod_order(&vec![1, 0]).to_be_bytes()),
        format!("{}0100", "0".repeat(60))
    );
    assert_eq!(hex(&Scalar::from_be_bytes_mod_order(&vec![]).to_be_bytes()), "0".repeat(64));
}

#[test]
fn members_are_added_once_and_removed_once() {
    let (_params, keypair, accumulator, mut state) = initialize_accumulator(3, 4);
    let a = scalar_from_str("a");
    let b = scalar_from_str("b");
    let one = accumulator.add(a.clone(), &keypair.secret_key, &mut state).unwrap();
    assert_eq!(
        one.add(a.clone(), &keypair.secret_key, &mut state).unwrap_err(),
        AccumulatorError::ElementPresent
    );
    assert_eq!(
        one.add_batch(vec![b.clone(), a.clone()], &keypair.secret_key, &mut state).unwrap_err(),
        AccumulatorError::ElementPresent
    );
    assert_eq!(state.size(), 1);
    assert_eq!(
        one.remove(&b, &keypair.secret_key, &mut state).unwrap_err(),
        AccumulatorError::ElementAbsent
    );
    assert_eq!(
        one.get_membership_witness(&b, &keypair.secret_key, &state).unwrap_err(),
        AccumulatorError::ElementAbsent
    );
    assert_eq!(
        one.get_membership_witnesses_for_batch(
            &vec![a.clone(), b.clone()],
            &keypair.secret_key,
            &state
        )
        .unwrap_err(),
        AccumulatorError::ElementAbsent
    );
    assert_eq!(state.size(), 1);
    assert!(state.has(&a));
    assert_eq!(AccumulatorError::ElementAbsent.name(), "ElementAbsent");
}

#[test]
fn batch_witnesses_come_in_the_order_of_the_elements() {
    let (params, keypair, accumulator, mut state) = initialize_accumulator(0, 1);
    let elements: Vec<_> = ["a", "b", "c", "d"].iter().map(|s| scalar_from_str(s)).collect();
    let filled = accumulator.add_batch(elements.clone(), &keypair.secret_key, &mut state).unwrap();
    let mut one_by_one = accumulator.clone();
    let mut other = csd_jwt::state::InMemoryState::new();
    for e in &elements {
        one_by_one = one_by_one.add(e.clone(), &keypair.secret_key, &mut other).unwrap();
    }
    assert!(filled.equals(&one_by_one));
    let wanted = vec![elements[2].clone(), elements[0].clone()];
    let list = filled
        .get_membership_witnesses_for_batch(&wanted, &keypair.secret_key, &state)
        .unwrap();
    assert_eq!(list.len(), 2);
    assert!(filled.verify_membership(&wanted[0], &list[0], &keypair.public_key, &params));
    assert!(filled.verify_membership(&wanted[1], &list[1], &keypair.public_key, &params));
    assert!(!filled.verify_membership(&wanted[1], &list[0], &keypair.public_key, &params));
    let alone = filled.get_membership_witness(&wanted[0], &keypair.secret_key, &state).unwrap();
    assert_eq!(serialize_witness(alone), serialize_witness(list[0].clone()));
}

#[test]
fn element_that_cancels_the_key_cannot_be_removed() {
    let mut rng = rand::rngs::StdRng::seed_from_u64(1);
    let outside_params = SetupParams::<Bn254>::generate_using_rng(&mut rng);
    let mut rng = rand::rngs::StdRng::seed_from_u64(0);
    let outside_pair = Keypair::<Bn254>::generate_using_rng(&mut rng, &outside_params);
    let negated = (-outside_pair.secret_key.0).into_bigint().to_bytes_be();

    let (_params, keypair, accumulator, mut state) = initialize_accumulator(0, 1);
    let element = Scalar::from_be_bytes_mod_order(&negated);
    // Adding it is not refused; the sum that removing and witnessing would invert is zero.
    let one = accumulator.add(element.clone(), &keypair.secret_key, &mut state).unwrap();
    assert_eq!(state.size(), 1);
    assert_eq!(
        one.remove(&element, &keypair.secret_key, &mut state).unwrap_err(),
        AccumulatorError::KeyCollision
    );
    assert_eq!(
        one.get_membership_witness(&element, &keypair.secret_key, &state).unwrap_err(),
        AccumulatorError::KeyCollision
    );
    assert_eq!(state.size(), 1);
    assert_eq!(
        one.get_membership_witnesses_for_batch(&vec![element.clone()], &keypair.secret_key, &state)
            .unwrap_err(),
        AccumulatorError::KeyCollision
    );
    let mut other = csd_jwt::state::InMemoryState::new();
    let two = accumulator
        .add_batch(vec![scalar_from_str("a"), element.clone()], &keypair.secret_key, &mut other)
        .unwrap();
    assert_eq!(other.size(), 2);
    assert!(two.equals(&one));
}

#[test]
fn values_agree_with_the_curve_library() {
    let mut rng = rand::rngs::StdRng::seed_from_u64(1);
    let outside_params = SetupParams::<Bn254>::generate_using_rng(&mut rng);
    let mut rng = rand::rngs::StdRng::seed_from_u64(0);
    let outside_pair = Keypair::<Bn254>::generate_using_rng(&mut rng, &outside_params);
    let outside_value =
        vb_accumulator::positive::PositiveAccumulator::<G1Affine>::initialize(&outside_params);
    let engine = base64::engine::general_purpose::STANDARD;

    let (_params, keypair, accumulator, _state) = initialize_accumulator(0, 1);
    let mut bytes = Vec::new();
    outside_value.serialize_compressed(&mut bytes).unwrap();
    assert_eq!(bytes.len(), 32);
    assert_eq!(serialize_accumulator(accumulator), engine.encode(&bytes));
    let mut key_bytes = Vec::new();
    outside_pair.public_key.serialize_compressed(&mut key_bytes).unwrap();
    assert_eq!(key_bytes.len(), 64);
    assert_eq!(serialize_pk(keypair.public_key), engine.encode(&key_bytes));

    // Bytes after the point, and a point at infinity with other bits set, are not canonical.
    let mut longer = bytes.clone();
    longer.push(0);
    assert_eq!(
        deserialize_accumulator(engine.encode(&longer)).unwrap_err(),
        CodecError::InvalidFormat
    );
    let mut infinity = vec![0u8; 32];
    infinity[31] = 0x40;
    assert!(deserialize_accumulator(engine.encode(&infinity)).is_ok());
    infinity[0] = 1;
    assert_eq!(
        deserialize_accumulator(engine.encode(&infinity)).unwrap_err(),
        CodecError::InvalidFormat
    );
    assert_eq!(
        deserialize_accumulator(engine.encode(&bytes[..31])).unwrap_err(),
        CodecError::InvalidFormat
    );
    // Padding has to be there.
    let text = engine.encode(&bytes);
    assert!(text.ends_with('='));
    assert_eq!(
        deserialize_accumulator(text.trim_end_matches('=').to_string()).unwrap_err(),
        CodecError::InvalidBase64
    );
}

#[test]
fn seeded_setup_is_valid() {
    let (params, keypair, _accumulator, state) = initialize_accumulator(0, 1);
    assert!(params.is_valid());
    assert!(keypair.public_key.is_valid());
    assert_eq!(state.size(), 0);
    assert_eq!(AccumulatorError::InvalidSetup.name(), "InvalidSetup");
}
