use csd_jwt::csd::csd_error::CsdError;
use csd_jwt::csd::csd_jwt::CsdJwt;

fn sentence(r: Result<CsdJwt, CsdError>) -> String {
    match r {
        Err(CsdError::DeserializationError(m)) => m,
        _ => panic!("no deserialization error"),
    }
}

#[test]
fn presentation_joins_with_a_tilde() {
    let jwt = CsdJwt::new("abc.def.ghi".to_string(), None);
    assert_eq!(jwt.presentation(), "abc.def.ghi~");
    let bound = CsdJwt::new("abc.def.ghi".to_string(), Some("kb".to_string()));
    assert_eq!(bound.presentation(), "abc.def.ghi~kb");
}

#[test]
fn parse_splits_at_tildes() {
    let plain = CsdJwt::parse("abc.def.ghi~").unwrap();
    assert_eq!(plain, CsdJwt::new("abc.def.ghi".to_string(), None));
    let with_disclosures = CsdJwt::parse("abc~d1~d2~").unwrap();
    assert_eq!(with_disclosures.jwt, "abc");
    assert_eq!(with_disclosures.key_binding_jwt, None);
    let bound = CsdJwt::parse("abc~d1~kb").unwrap();
    assert_eq!(bound.jwt, "abc");
    assert_eq!(bound.key_binding_jwt, Some("kb".to_string()));
    let empty_token = CsdJwt::parse("~").unwrap();
    assert_eq!(empty_token.jwt, "");
    assert_eq!(empty_token.key_binding_jwt, None);
    let unicode = CsdJwt::parse("é~ü~ß").unwrap();
    assert_eq!(unicode.jwt, "é");
    assert_eq!(unicode.key_binding_jwt, Some("ß".to_string()));
    let parsed: CsdJwt = "abc~~kb".parse().unwrap();
    assert_eq!(parsed.key_binding_jwt, Some("kb".to_string()));
}

#[test]
fn parse_counts_segments() {
    assert_eq!(
        sentence(CsdJwt::parse("abc.def.ghi")),
        "SD-JWT format is invalid, less than 2 segments"
    );
    assert_eq!(sentence(CsdJwt::parse("")), "SD-JWT format is invalid, less than 2 segments");
    assert_eq!(
        sentence(CsdJwt::parse("abc~kb")),
        "SD-JWT format is invalid, less than 3 segments with key binding jwt"
    );
}

#[test]
fn errors_have_names_and_sentences() {
    let e = CsdError::InvalidPath("x".to_string());
    assert_eq!(e.name(), "InvalidPath");
    assert_eq!(e.message(), "invalid path: x");
    assert_eq!(CsdError::DeserializationError("x".to_string()).message(), "invalid input");
    assert_eq!(
        CsdError::UnusedDisclosures(12).message(),
        "the validation ended with 12 unused disclosure(s)"
    );
    assert_eq!(CsdError::Unspecified("why".to_string()).message(), "why");
    assert_eq!(
        CsdError::AddBatch("ElementPresent".to_string()).message(),
        "Error in adding batch of elements in accumulator [ElementPresent]"
    );
    assert_eq!(
        CsdError::ClaimCollisionError("c".to_string()).message(),
        "claim c of disclosure already exists"
    );
    assert_eq!(CsdError::InvalidSaltSize.name(), "InvalidSaltSize");
}
