use csd_jwt::csd::csd_decoder::CsdDecoder;
use csd_jwt::csd::csd_encoder::{CsdEncoder, SD_ALG_VALUE};
use csd_jwt::csd::csd_error::CsdError as Error;
use csd_jwt::json::{JsonMap, JsonNumber, JsonValue};

fn text(s: &str) -> JsonValue {
    JsonValue::Text(s.to_string())
}

fn object() -> JsonValue {
    let mut claim1 = JsonMap::new();
    claim1.insert("abc".to_string(), JsonValue::Bool(true));
    let mut map = JsonMap::new();
    map.insert("id".to_string(), text("did:value"));
    map.insert("claim1".to_string(), JsonValue::Object(claim1));
    map.insert(
        "claim2".to_string(),
        JsonValue::Array(vec![text("arr-value1"), text("arr-value2")]),
    );
    JsonValue::Object(map)
}

fn fields(value: &JsonValue) -> &JsonMap {
    match value {
        JsonValue::Object(map) => map,
        _ => panic!("no object"),
    }
}

#[test]
fn errors() {
    let mut encoder = CsdEncoder::try_from(object()).unwrap();
    encoder.conceal("/claim1/abc").unwrap();
    assert!(matches!(
        encoder.conceal("claim2/2").unwrap_err(),
        Error::InvalidPath(_)
    ));
}

#[test]
fn test_wrong_path() {
    let mut encoder = CsdEncoder::try_from(object()).unwrap();
    assert!(matches!(
        encoder.conceal("/claim12").unwrap_err(),
        Error::InvalidPath(_)
    ));
    assert!(matches!(
        encoder.conceal("/claim12/0").unwrap_err(),
        Error::InvalidPath(_)
    ));
}

#[test]
fn conceal_takes_fields_and_items_out() {
    let mut encoder = CsdEncoder::try_from(object()).unwrap();
    let inner = encoder.conceal("/claim1/abc").unwrap();
    assert_eq!(inner.claim_name, Some("abc".to_string()));
    assert!(matches!(inner.claim_value, JsonValue::Bool(true)));
    let id = encoder.conceal("/id").unwrap();
    assert_eq!(id.claim_name, Some("id".to_string()));
    assert_eq!(id.as_str(), "WyAiaWQiLCAiZGlkOnZhbHVlIl0");
    let item = encoder.conceal("/claim2/0").unwrap();
    assert_eq!(item.claim_name, None);
    assert_eq!(item.into_string(), "WyJhcnItdmFsdWUxIl0");
    let left = fields(encoder.working_object());
    assert!(left.get("id").is_none());
    assert_eq!(left.len(), 2);
    assert!(fields(left.get("claim1").unwrap()).is_empty());
    match left.get("claim2").unwrap() {
        JsonValue::Array(items) => assert_eq!(items.len(), 1),
        _ => panic!("no array"),
    }
    // The last field moved to the place of the field that was taken out.
    assert_eq!(
        encoder.try_to_string().unwrap(),
        "{\"claim2\":[\"arr-value2\"],\"claim1\":{}}"
    );
}

#[test]
fn conceal_reports_where_the_path_ends() {
    let mut encoder = CsdEncoder::try_from(object()).unwrap();
    let before = encoder.try_to_string().unwrap();
    match encoder.conceal("").unwrap_err() {
        Error::InvalidPath(m) => assert_eq!(m, "path does not contain any values"),
        _ => panic!("wrong error"),
    }
    match encoder.conceal("/claim12").unwrap_err() {
        Error::InvalidPath(m) => assert_eq!(m, "claim12 does not exist"),
        _ => panic!("wrong error"),
    }
    match encoder.conceal("/claim2/2").unwrap_err() {
        Error::InvalidPath(m) => assert_eq!(m, "2 is no index of the array"),
        _ => panic!("wrong error"),
    }
    match encoder.conceal("/claim2/x").unwrap_err() {
        Error::InvalidPath(m) => assert_eq!(m, "x is no index of the array"),
        _ => panic!("wrong error"),
    }
    match encoder.conceal("/id/x").unwrap_err() {
        Error::InvalidPath(m) => {
            assert_eq!(m, "parent of element can can only be an object or an array")
        }
        _ => panic!("wrong error"),
    }
    assert!(matches!(encoder.conceal("/a~2b").unwrap_err(), Error::InvalidPath(_)));
    assert_eq!(encoder.try_to_string().unwrap(), before);
}

#[test]
fn conceal_reads_escaped_tokens() {
    let mut encoder = CsdEncoder::new("{\"a/b\":{\"c~d\":1},\"e\":2}").unwrap();
    let d = encoder.conceal("/a~1b/c~0d").unwrap();
    assert_eq!(d.claim_name, Some("c~d".to_string()));
    assert_eq!(encoder.try_to_string().unwrap(), "{\"a/b\":{},\"e\":2}");
}

#[test]
fn new_reads_objects_only() {
    assert!(matches!(CsdEncoder::new("{\"a\":").err().unwrap(), Error::DeserializationError(_)));
    match CsdEncoder::new("[1,2]").err().unwrap() {
        Error::DataTypeMismatch(m) => assert_eq!(m, "expected object"),
        _ => panic!("wrong error"),
    }
    assert!(matches!(
        CsdEncoder::try_from(text("x")).err().unwrap(),
        Error::DataTypeMismatch(_)
    ));
    let encoder = CsdEncoder::new("{\"n\":1.5,\"m\":-3,\"s\":\"a\\\"b\",\"z\":null}").unwrap();
    assert_eq!(
        encoder.try_to_string().unwrap(),
        "{\"n\":1.5,\"m\":-3,\"s\":\"a\\\"b\",\"z\":null}"
    );
}

#[test]
fn algorithm_tag_is_put_in_once() {
    let mut encoder = CsdEncoder::try_from(object()).unwrap();
    assert!(encoder.add_sd_alg_property().is_none());
    let previous = encoder.add_sd_alg_property().unwrap();
    assert!(matches!(previous, JsonValue::Text(ref t) if t == SD_ALG_VALUE));
    let left = fields(encoder.working_object());
    assert_eq!(left.len(), 4);
    assert!(matches!(left.get("_sd_alg").unwrap(), JsonValue::Text(t) if t == SD_ALG_VALUE));
}

#[test]
fn envelope_needs_the_algorithm_tag() {
    let mut encoder = CsdEncoder::new("{\"a\":\"1\"}").unwrap();
    match encoder.object().unwrap_err() {
        Error::Unspecified(m) => assert_eq!(m, "No sd-alg field present."),
        _ => panic!("wrong error"),
    }
}

#[test]
fn names_of_an_object_differ() {
    let mut map = JsonMap::new();
    assert!(map.insert("a".to_string(), text("1")).is_none());
    assert!(map.insert("b".to_string(), text("2")).is_none());
    assert!(map.insert("c".to_string(), text("3")).is_none());
    let previous = map.insert("a".to_string(), text("4")).unwrap();
    assert!(matches!(previous, JsonValue::Text(ref t) if t == "1"));
    assert_eq!(map.len(), 3);
    assert!(map.contains_key("b"));
    assert!(!map.contains_key("d"));
    assert_eq!(
        JsonValue::Object(map.clone()).to_text(),
        "{\"a\":\"4\",\"b\":\"2\",\"c\":\"3\"}"
    );
    assert!(map.remove("a").is_some());
    assert!(map.remove("a").is_none());
    assert_eq!(JsonValue::Object(map.clone()).to_text(), "{\"c\":\"3\",\"b\":\"2\"}");
    assert_eq!(map.fields().len(), 2);
    assert_eq!(map.fields()[0].0, "c");
    let old = map.replace_value(1, JsonValue::Null);
    assert!(matches!(old, JsonValue::Text(ref t) if t == "2"));
    let back = map.replace_value(5, JsonValue::Bool(true));
    assert!(matches!(back, JsonValue::Bool(true)));
    assert_eq!(JsonValue::Object(map).to_text(), "{\"c\":\"3\",\"b\":null}");
    let read = JsonValue::from_text("{\"k\":1,\"k\":2}").unwrap();
    assert_eq!(read.to_text(), "{\"k\":2}");
}

#[test]
fn end_to_end_scenario() {
    let mut encoder = CsdEncoder::new("{\"a\":\"1\",\"b\":\"2\",\"c\":\"3\"}").unwrap();
    let concealed = encoder.conceal("/b").unwrap();
    assert_eq!(concealed.claim_name, Some("b".to_string()));
    encoder.add_sd_alg_property();
    let envelope = encoder.object().unwrap().clone();
    assert_eq!(envelope.len(), 6);
    assert!(matches!(envelope.get("accumulator").unwrap(), JsonValue::Text(_)));
    assert!(matches!(envelope.get("pk").unwrap(), JsonValue::Text(_)));
    assert!(matches!(envelope.get("param_seed").unwrap(), JsonValue::Text(t) if t == "1"));
    assert!(matches!(envelope.get("_sd_alg").unwrap(), JsonValue::Text(t) if t == SD_ALG_VALUE));
    assert!(matches!(envelope.get("a::\"1\"").unwrap(), JsonValue::Text(_)));
    assert!(matches!(envelope.get("c::\"3\"").unwrap(), JsonValue::Text(_)));
    assert!(envelope.get("b::\"2\"").is_none());
    assert!(envelope.get("b").is_none());

    let decoder = CsdDecoder::new();
    let decoded = decoder.decode(&envelope).unwrap();
    assert_eq!(decoded.len(), 6);
    assert!(decoder.validate_object(decoded.clone()).unwrap());
    assert!(decoder.failing_claims(decoded).unwrap().is_empty());

    // A witness of another claim shows nothing of "b".
    let mut forged = envelope.clone();
    let borrowed = forged.get("a::\"1\"").unwrap().clone();
    forged.insert("b::\"2\"".to_string(), borrowed);
    assert!(!decoder.validate_object(forged.clone()).unwrap());
    assert_eq!(decoder.failing_claims(forged).unwrap(), vec!["b::\"2\"".to_string()]);
}

#[test]
fn envelope_is_made_of_the_object_as_it_is_now() {
    let mut encoder = CsdEncoder::new("{\"a\":\"1\",\"b\":\"2\"}").unwrap();
    encoder.add_sd_alg_property();
    let first = encoder.object().unwrap().clone();
    assert_eq!(first.len(), 6);
    assert!(first.get("b::\"2\"").is_some());
    encoder.conceal("/b").unwrap();
    let second = encoder.object().unwrap().clone();
    assert_eq!(second.len(), 5);
    assert!(second.get("b::\"2\"").is_none());
    assert!(second.get("a::\"1\"").is_some());
    assert_ne!(
        second.get("accumulator").unwrap().to_text(),
        first.get("accumulator").unwrap().to_text()
    );
    assert!(CsdDecoder::new().validate_object(second).unwrap());
    let third = encoder.object_with_seeds(7, 9).unwrap().clone();
    assert_eq!(third.len(), 5);
    assert!(matches!(third.get("param_seed").unwrap(), JsonValue::Text(t) if t == "9"));
    assert!(CsdDecoder::new().validate_object(third).unwrap());
    // Where no envelope is issued, the last one stays.
    encoder.conceal("/_sd_alg").unwrap();
    assert!(encoder.object().is_err());
    let mut again = CsdEncoder::new("{\"a\":\"1\"}").unwrap();
    assert!(again.object().is_err());
}

#[test]
fn envelope_needs_a_tag_that_is_a_string() {
    let mut encoder = CsdEncoder::new("{\"a\":\"1\",\"_sd_alg\":5}").unwrap();
    match encoder.object().unwrap_err() {
        Error::DataTypeMismatch(m) => assert_eq!(m, "sd-alg field is not a string."),
        _ => panic!("wrong error"),
    }
    let mut tagged = CsdEncoder::new("{\"a\":\"1\",\"_sd_alg\":\"mine\"}").unwrap();
    let envelope = tagged.object().unwrap().clone();
    assert!(matches!(envelope.get("_sd_alg").unwrap(), JsonValue::Text(t) if t == "mine"));
    assert!(CsdDecoder::new().validate_object(envelope).unwrap());
}

#[test]
fn numbers_are_texts_that_write_a_number() {
    assert!(JsonNumber::parse("x").is_none());
    assert!(JsonNumber::parse("\"1\"").is_none());
    assert!(JsonNumber::parse("").is_none());
    let n = JsonNumber::parse("-12.5").unwrap();
    assert_eq!(n.as_str(), "-12.5");
    assert_eq!(JsonValue::Number(n.clone()).to_text(), "-12.5");
    let list = JsonValue::Array(vec![JsonValue::Number(n), JsonValue::Null]);
    assert_eq!(list.to_text(), "[-12.5,null]");
}
