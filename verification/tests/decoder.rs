use base64::Engine;
use csd_jwt::accumulator::{
    deserialize_accumulator, deserialize_pk, generate_params, scalar_from_str,
};
use csd_jwt::csd::csd_decoder::{failing_among, verify_claim, CsdDecoder, Envelope};
use csd_jwt::csd::csd_encoder::CsdEncoder;
use csd_jwt::csd::csd_error::CsdError;
use csd_jwt::json::{JsonMap, JsonNumber, JsonValue};
use csd_jwt::samples::{populate_concealments, populate_map};

fn text(s: &str) -> JsonValue {
    JsonValue::Text(s.to_string())
}

fn issued(n: usize) -> JsonMap {
    let mut claims = JsonMap::new();
    populate_map(&mut claims, n);
    let mut encoder = CsdEncoder::try_from(JsonValue::Object(claims)).unwrap();
    encoder.add_sd_alg_property();
    encoder.object().unwrap().clone()
}

fn unspecified(r: Result<bool, CsdError>) -> String {
    match r {
        Err(CsdError::Unspecified(m)) => m,
        _ => panic!("no unspecified error"),
    }
}

#[test]
fn decode_passes_nested_objects_through() {
    let mut inner = JsonMap::new();
    inner.insert("x".to_string(), JsonValue::Number(JsonNumber::parse("1").unwrap()));
    inner.insert("y".to_string(), JsonValue::Object(JsonMap::new()));
    let mut map = JsonMap::new();
    map.insert("a".to_string(), text("1"));
    map.insert("b".to_string(), JsonValue::Object(inner));
    map.insert("c".to_string(), JsonValue::Null);
    let out = CsdDecoder::new().decode(&map).unwrap();
    assert_eq!(
        JsonValue::Object(out).to_text(),
        "{\"a\":\"1\",\"b\":{\"x\":1,\"y\":{}},\"c\":null}"
    );
}

#[test]
fn decode_refuses_arrays_at_any_depth() {
    let mut inner = JsonMap::new();
    inner.insert("x".to_string(), JsonValue::Array(vec![]));
    let mut map = JsonMap::new();
    map.insert("a".to_string(), text("1"));
    map.insert("b".to_string(), JsonValue::Object(inner));
    match CsdDecoder::new().decode(&map).unwrap_err() {
        CsdError::Unspecified(m) => assert_eq!(m, "No arrays allowed yet!"),
        _ => panic!("wrong error"),
    }
}

#[test]
fn control_fields_are_asked_for_in_turn() {
    let decoder = CsdDecoder::new();
    let full = issued(1);
    let mut object = JsonMap::new();
    assert_eq!(unspecified(decoder.validate_object(object.clone())), "No accumulator found!");
    object.insert("accumulator".to_string(), JsonValue::Bool(true));
    assert_eq!(
        unspecified(decoder.validate_object(object.clone())),
        "Accumulator value found is not a string!"
    );
    object.insert("accumulator".to_string(), text("AAAA"));
    assert_eq!(unspecified(decoder.validate_object(object.clone())), "No param seed found!");
    object.insert("param_seed".to_string(), JsonValue::Number(JsonNumber::parse("1").unwrap()));
    assert_eq!(
        unspecified(decoder.validate_object(object.clone())),
        "Param seed value found is not a string!"
    );
    for bad in ["", "+", "-1", "1x", "18446744073709551616"] {
        object.insert("param_seed".to_string(), text(bad));
        assert_eq!(
            unspecified(decoder.validate_object(object.clone())),
            "Param seed value is a string but can't be converted to u64!"
        );
    }
    object.insert("param_seed".to_string(), text("+01"));
    assert_eq!(unspecified(decoder.validate_object(object.clone())), "No public key found!");
    object.insert("pk".to_string(), JsonValue::Null);
    assert_eq!(
        unspecified(decoder.validate_object(object.clone())),
        "Public key value found is not a string!"
    );
    object.insert("pk".to_string(), text("?"));
    match decoder.validate_object(object.clone()).unwrap_err() {
        CsdError::DeserializationError(m) => assert_eq!(m, "Public key is not base64 text"),
        _ => panic!("wrong error"),
    }
    object.insert("pk".to_string(), text("AAAA"));
    match decoder.validate_object(object.clone()).unwrap_err() {
        CsdError::DeserializationError(m) => {
            assert_eq!(m, "Public key is not the canonical encoding of a point")
        }
        _ => panic!("wrong error"),
    }
    object.insert("pk".to_string(), full.get("pk").unwrap().clone());
    assert_eq!(
        unspecified(decoder.validate_object(object.clone())),
        "No Selective Disclosure algorithm found!"
    );
    let five = JsonValue::Number(JsonNumber::parse("5").unwrap());
    for wrong in [JsonValue::Null, five, JsonValue::Bool(true)] {
        object.insert("_sd_alg".to_string(), wrong);
        assert_eq!(
            unspecified(decoder.validate_object(object.clone())),
            "Selective Disclosure algorithm value found is not a string!"
        );
    }
    object.insert("_sd_alg".to_string(), text("any"));
    match decoder.validate_object(object.clone()).unwrap_err() {
        CsdError::DeserializationError(m) => {
            assert_eq!(m, "Accumulator is not the canonical encoding of a point")
        }
        _ => panic!("wrong error"),
    }
    object.insert("accumulator".to_string(), full.get("accumulator").unwrap().clone());
    assert!(decoder.validate_object(object.clone()).unwrap());
    object.insert("k::1".to_string(), JsonValue::Bool(false));
    assert_eq!(
        unspecified(decoder.validate_object(object.clone())),
        "Witness of [k::1] not a string"
    );
}

#[test]
fn scale_scenario() {
    let decoder = CsdDecoder::new();
    for n in [1usize, 2, 17, 40] {
        let envelope = issued(n);
        assert_eq!(envelope.len(), n + 4);
        assert!(decoder.validate_object(envelope.clone()).unwrap());
        let victim = format!("Claim Key {}::\"Claim Value {}\"", n / 2, n / 2);
        let other = format!("Claim Key {}::\"Claim Value {}\"", (n / 2 + 1) % n, (n / 2 + 1) % n);
        let mut corrupted = envelope.clone();
        let replacement = if n == 1 {
            envelope.get("accumulator").unwrap().clone()
        } else {
            envelope.get(&other).unwrap().clone()
        };
        assert!(corrupted.insert(victim.clone(), replacement).is_some());
        assert!(!decoder.validate_object(corrupted.clone()).unwrap());
        assert_eq!(decoder.failing_claims(corrupted).unwrap(), vec![victim]);
    }
}

#[test]
fn tampered_witness_never_verifies() {
    let envelope = issued(1);
    let claim = "Claim Key 0::\"Claim Value 0\"";
    let good = match envelope.get(claim).unwrap() {
        JsonValue::Text(t) => t.clone(),
        _ => panic!("no text"),
    };
    let accumulator = match envelope.get("accumulator").unwrap() {
        JsonValue::Text(t) => deserialize_accumulator(t.clone()).unwrap(),
        _ => panic!("no text"),
    };
    let pk = match envelope.get("pk").unwrap() {
        JsonValue::Text(t) => deserialize_pk(t.clone()).unwrap(),
        _ => panic!("no text"),
    };
    let params = generate_params(1);
    assert!(verify_claim(&accumulator, &pk, &params, claim, &good));
    let engine = base64::engine::general_purpose::STANDARD;
    let bytes = engine.decode(&good).unwrap();
    for i in 0..bytes.len() {
        for bit in 0..8 {
            let mut flipped = bytes.clone();
            flipped[i] ^= 1 << bit;
            let tampered = engine.encode(&flipped);
            assert!(!verify_claim(&accumulator, &pk, &params, claim, &tampered));
        }
    }
    assert!(!verify_claim(&accumulator, &pk, &params, claim, "not base64"));
    assert!(!verify_claim(&accumulator, &pk, &params, claim, ""));
    assert!(!verify_claim(&accumulator, &pk, &params, "Claim Key 1::\"x\"", &good));
    assert!(!verify_claim(&accumulator, &pk, &generate_params(2), claim, &good));
}

#[test]
fn opened_envelope_holds_the_claims() {
    let env = Envelope::open(issued(3)).unwrap();
    assert_eq!(env.claims.len(), 3);
    assert_eq!(env.claims[2].0, "Claim Key 2::\"Claim Value 2\"");
    assert!(env.failing_claims().is_empty());
    let element = scalar_from_str(&env.claims[2].0);
    assert_eq!(element.to_be_bytes().len(), 32);
}

#[test]
fn sample_paths_come_first() {
    let mut paths = vec!["/x".to_string()];
    populate_concealments(&mut paths, 3);
    assert_eq!(paths, vec!["/Claim Key 0", "/Claim Key 1", "/Claim Key 2", "/x"]);
    let mut claims = JsonMap::new();
    populate_map(&mut claims, 12);
    assert_eq!(claims.len(), 12);
    assert!(matches!(
        claims.get("Claim Key 11").unwrap(),
        JsonValue::Text(t) if t == "Claim Value 11"
    ));
    populate_map(&mut claims, 2);
    assert_eq!(claims.len(), 12);
}

#[test]
fn outcomes_are_gathered_in_order() {
    let outcomes = vec![
        ("a".to_string(), true),
        ("b".to_string(), false),
        ("c".to_string(), true),
        ("d".to_string(), false),
    ];
    assert_eq!(failing_among(&outcomes), vec!["b".to_string(), "d".to_string()]);
    assert!(failing_among(&outcomes[..1].to_vec()).is_empty());
    assert!(failing_among(&vec![]).is_empty());
}
