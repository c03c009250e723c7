use jwt_registry::validator::{
    get_issuer, get_jwk, get_kid_from_token, get_message, get_signature, get_sub, verify_jwt,
    Claims, ErrorInJwt, Header, Jwk, JwkSet, KeyParameters, TokenData,
};

fn create_test_claims(exp: u64) -> Claims {
    Claims {
        aud: "test_audience".into(),
        sub: "user123".into(),
        company: "test_company".into(),
        exp,
        iss: "test_issuer".into(),
    }
}

fn create_test_jwk(kid: &str, n: &str, e: &str) -> Jwk {
    Jwk {
        key_id: Some(kid.to_string()),
        algorithm: KeyParameters::Rsa { n: n.to_string(), e: e.to_string() },
    }
}

// A compact token whose header decodes to `{"alg":"RS256"}` (no key
// identifier); the payload and signature segments are well-formed base64
// but carry no meaning.
const TOKEN_NO_KID: &str = "eyJhbGciOiJSUzI1NiJ9.e30.c2ln";

// A compact token whose header decodes to
// `{"alg":"RS256","kid":"missing_kid"}`.
const TOKEN_MISSING_KID: &str = "eyJhbGciOiJSUzI1NiIsImtpZCI6Im1pc3Npbmdfa2lkIn0.e30.c2ln";

// A compact token whose header decodes to
// `{"alg":"RS256","kid":"my_kid"}`.
const TOKEN_MY_KID: &str = "eyJhbGciOiJSUzI1NiIsImtpZCI6Im15X2tpZCJ9.e30.c2ln";

#[test]
fn test_get_kid_from_token_ok() {
    let header = Header { kid: Some("abc123".to_string()) };

    assert_eq!(get_kid_from_token(&header).unwrap(), "abc123");
}

#[test]
fn test_get_kid_from_token_none() {
    let header = Header { kid: None };
    assert_eq!(get_kid_from_token(&header), None);
}

#[test]
fn test_get_kid_from_token_empty() {
    let header = Header { kid: Some("".to_string()) };
    assert_eq!(get_kid_from_token(&header), None);
}

#[test]
fn test_get_issuer_and_sub() {
    let claims = create_test_claims(9999999999);
    let header = Header { kid: None };
    let token_data = TokenData { claims, header };

    assert_eq!(get_issuer(&token_data).unwrap_or(String::from("error")), "test_issuer");
    assert_eq!(get_sub(&token_data).unwrap_or(String::from("error")), "user123");
}

#[test]
fn test_get_issuer_and_sub_empty() {
    let mut claims = create_test_claims(9999999999);
    claims.iss = "".to_string();
    claims.sub = "".to_string();
    let header = Header { kid: None };
    let token_data = TokenData { claims, header };

    assert!(matches!(get_issuer(&token_data), Err(ErrorInJwt::NoIssuer)));
    assert!(matches!(get_sub(&token_data), Err(ErrorInJwt::NoSub)));
}

#[test]
fn test_get_signature_and_message() {
    let token = "aaa.bbb.ccc";
    assert_eq!(get_signature(token).unwrap(), "ccc");
    assert_eq!(get_message(token).unwrap(), "bbb");
}

#[test]
fn test_get_signature_and_message_invalid() {
    let invalid_tokens = vec!["", "aaa", "aaa.bbb", "aaa.bbb.ccc.ddd"];

    for token in invalid_tokens {
        assert_eq!(get_signature(token), None);
        assert_eq!(get_message(token), None);
    }
}

#[test]
fn test_get_jwk_success() {
    let jwk = create_test_jwk("my_kid", "some_n", "some_e");
    let jwks = JwkSet { keys: vec![jwk] };

    let result = get_jwk("my_kid", &jwks);
    assert!(result.is_some());
    assert_eq!(result.unwrap().key_id.unwrap(), "my_kid");
}

#[test]
fn test_get_jwk_failure() {
    let jwks = JwkSet { keys: vec![] };
    assert!(get_jwk("missing_kid", &jwks).is_none());
}

#[test]
fn test_verify_jwt_failures() {
    let jwks = JwkSet { keys: vec![] };

    // Invalid JWT format: the header segment is not a decodable header.
    assert!(matches!(verify_jwt("invalid.jwt.format", &jwks), Err(ErrorInJwt::InvalidJwt)));

    // A decodable header without a key identifier.
    assert!(matches!(verify_jwt(TOKEN_NO_KID, &jwks), Err(ErrorInJwt::InvalidJwt)));

    // A key identifier that no key of the set carries.
    assert!(matches!(verify_jwt(TOKEN_MISSING_KID, &jwks), Err(ErrorInJwt::NoJwkForKid)));
}

#[test]
fn test_verify_jwt_bad_signature() {
    // The key identifier resolves, the RSA components yield a decode key,
    // and the check reaches the cryptographic verification, which cannot
    // accept the meaningless signature segment.
    let jwk = create_test_jwk("my_kid", "3233", "17");
    let jwks = JwkSet { keys: vec![jwk] };

    let result = verify_jwt(TOKEN_MY_KID, &jwks);
    assert!(!matches!(result, Ok(true)));
}

#[test]
fn test_verify_jwt_unsupported_algorithm() {
    let jwk = Jwk { key_id: Some("my_kid".to_string()), algorithm: KeyParameters::Unsupported };
    let jwks = JwkSet { keys: vec![jwk] };

    assert!(matches!(
        verify_jwt(TOKEN_MY_KID, &jwks),
        Err(ErrorInJwt::NotPossibleToGetDecodeKey)
    ));
}

#[test]
fn test_jwt_module_result_accessors() {
    // The `jwt` module reports absence through `ErrorInJwt` instead of
    // `None`.
    let header = Header { kid: None };
    assert!(matches!(
        jwt_registry::jwt::get_kid_from_token(&header),
        Err(ErrorInJwt::InvalidToken)
    ));

    assert_eq!(jwt_registry::jwt::get_signature("aaa.bbb.ccc").unwrap(), "ccc");
    assert_eq!(jwt_registry::jwt::get_message("aaa.bbb.ccc").unwrap(), "bbb");
    assert!(matches!(
        jwt_registry::jwt::get_signature("aaa.bbb"),
        Err(ErrorInJwt::NoSignaturePresent)
    ));
    assert!(matches!(
        jwt_registry::jwt::get_message("aaa.bbb.ccc.ddd"),
        Err(ErrorInJwt::NoSignaturePresent)
    ));

    let jwks = JwkSet { keys: vec![create_test_jwk("my_kid", "some_n", "some_e")] };
    let found = jwt_registry::jwt::get_jwk(&"my_kid".to_string(), &jwks);
    assert_eq!(found.unwrap().key_id.unwrap(), "my_kid");

    assert!(matches!(
        jwt_registry::jwt::verify_jwt(TOKEN_NO_KID, &jwks),
        Err(ErrorInJwt::InvalidToken)
    ));
}
