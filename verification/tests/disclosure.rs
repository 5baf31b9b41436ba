use csd_jwt::csd::csd_disclosure::CsdDisclosure;
use csd_jwt::csd::csd_error::CsdError;
use csd_jwt::json::JsonValue;

fn sentence(r: Result<CsdDisclosure, CsdError>) -> String {
    match r {
        Err(CsdError::InvalidDisclosure(m)) => m,
        _ => panic!("no invalid disclosure"),
    }
}

#[test]
fn new_encodes_name_and_value() {
    let d = CsdDisclosure::new(Some("id".to_string()), JsonValue::Text("did:value".to_string()));
    assert_eq!(d.as_str(), "WyAiaWQiLCAiZGlkOnZhbHVlIl0");
    let e = CsdDisclosure::new(None, JsonValue::Text("arr-value1".to_string()));
    assert_eq!(e.clone().into_string(), "WyJhcnItdmFsdWUxIl0");
    assert_eq!(e.claim_name, None);
}

#[test]
fn parse_reads_arrays_of_two_and_three() {
    let three = CsdDisclosure::parse("WyJzYWx0IiwgIm5hbWUiLCA3XQ".to_string()).unwrap();
    assert_eq!(three.claim_name, Some("name".to_string()));
    assert!(matches!(three.claim_value, JsonValue::Number(ref n) if n.as_str() == "7"));
    assert_eq!(three.disclosure, "WyJzYWx0IiwgIm5hbWUiLCA3XQ");
    let two = CsdDisclosure::parse("WyJzYWx0IiwgN10".to_string()).unwrap();
    assert_eq!(two.claim_name, None);
    assert!(matches!(two.claim_value, JsonValue::Number(ref n) if n.as_str() == "7"));
    let named = CsdDisclosure::parse("WyAiaWQiLCAiZGlkOnZhbHVlIl0".to_string()).unwrap();
    assert_eq!(named.claim_name, None);
    assert!(matches!(named.claim_value, JsonValue::Text(ref t) if t == "did:value"));
}

#[test]
fn parse_refuses_other_input() {
    assert_eq!(
        sentence(CsdDisclosure::parse("%%%".to_string())),
        "Base64 decoding of the disclosure was not possible %%%"
    );
    assert_eq!(
        sentence(CsdDisclosure::parse("eyJhIjoxfQ".to_string())),
        "decoded disclosure could not be serialized as an array eyJhIjoxfQ"
    );
    assert_eq!(
        sentence(CsdDisclosure::parse("WyJzYWx0IiwgNywgOF0".to_string())),
        "claim name could not be parsed as a string"
    );
    assert_eq!(
        sentence(CsdDisclosure::parse("WzFd".to_string())),
        "deserialized array has an invalid length of 1"
    );
    assert_eq!(
        sentence(CsdDisclosure::parse("WzEsMiwzLDRd".to_string())),
        "deserialized array has an invalid length of 4"
    );
    assert_eq!(
        sentence(CsdDisclosure::from_array(vec![], "x".to_string())),
        "deserialized array has an invalid length of 0"
    );
}
