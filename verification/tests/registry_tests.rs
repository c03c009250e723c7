use jwt_registry::registry::Pallet;
use jwt_registry::types::{Config, Error};

// The caller identity used for privileged registry operations.
const ROOT: u64 = 0;

fn test_config() -> Config {
    Config {
        max_length_issuer_domain: 100,
        max_length_issuer_open_id_url: 200,
        max_length_issuer_jwks: 1_000,
        min_update_interval: 10,
        max_update_interval: 1_000,
        max_proposers_per_issuer: 10,
    }
}

// The authorized voter identities are 1 and 2.
fn new_test_pallet() -> Pallet {
    Pallet::new(test_config(), vec![1, 2])
}

fn bounded_vec(s: &str) -> Vec<u8> {
    s.as_bytes().to_vec()
}

fn create_test_jwks() -> Vec<u8> {
    let jwks = r#"{
        "keys": [
            {
                "kty": "RSA",
                "kid": "test-key-1",
                "use": "sig",
                "n": "test-n",
                "e": "AQAB"
            }
        ]
    }"#;
    bounded_vec(jwks)
}

// The canonical serialization of `create_test_jwks`: object keys ordered,
// no whitespace.
fn canonical_test_jwks() -> Vec<u8> {
    bounded_vec(
        r#"{"keys":[{"e":"AQAB","kid":"test-key-1","kty":"RSA","n":"test-n","use":"sig"}]}"#,
    )
}

fn create_test_openid_url() -> Vec<u8> {
    bounded_vec("https://test.example.com/.well-known/openid-configuration")
}

#[test]
fn test_register_issuer_success() {
    let mut p = new_test_pallet();
    let domain = bounded_vec("example.com");
    let open_id_url = Some(create_test_openid_url());
    let jwks = Some(create_test_jwks());
    let interval_update = Some(100);

    assert!(p
        .register_issuer(ROOT, domain.clone(), open_id_url.clone(), jwks.clone(), interval_update)
        .is_ok());

    let issuer = &p.issuer_map.iter().find(|e| e.0 == domain).unwrap().1;
    assert_eq!(issuer.open_id_url, open_id_url);
    assert_eq!(issuer.interval_update, interval_update);
    assert!(issuer.is_enabled);

    // The stored active JWKS is the canonical form of the supplied bytes.
    assert_eq!(p.get_jwks_url(&domain), Some(canonical_test_jwks()));
}

#[test]
fn test_register_issuer_duplicate() {
    let mut p = new_test_pallet();
    let domain = bounded_vec("example.com");
    let open_id_url = Some(create_test_openid_url());
    let jwks = Some(create_test_jwks());
    let interval_update = Some(100);

    assert!(p
        .register_issuer(ROOT, domain.clone(), open_id_url.clone(), jwks.clone(), interval_update)
        .is_ok());

    assert_eq!(
        p.register_issuer(ROOT, domain, open_id_url, jwks, interval_update),
        Err(Error::IssuerAlreadyExists)
    );
}

#[test]
fn test_update_issuer() {
    let mut p = new_test_pallet();
    let domain = bounded_vec("example.com");
    let open_id_url = Some(create_test_openid_url());
    let jwks = Some(create_test_jwks());
    let interval_update = Some(100);

    assert!(p
        .register_issuer(ROOT, domain.clone(), open_id_url, jwks, interval_update)
        .is_ok());

    let new_open_id_url =
        Some(bounded_vec("https://new.example.com/.well-known/openid-configuration"));
    let new_jwks = Some(create_test_jwks());
    let new_interval_update = Some(200);

    assert!(p
        .update_issuer(
            ROOT,
            domain.clone(),
            new_open_id_url.clone(),
            new_jwks.clone(),
            new_interval_update,
            true,
        )
        .is_ok());

    let issuer = &p.issuer_map.iter().find(|e| e.0 == domain).unwrap().1;
    assert_eq!(issuer.open_id_url, new_open_id_url);
    assert_eq!(issuer.interval_update, new_interval_update);
    assert!(issuer.is_enabled);

    assert_eq!(p.get_jwks_url(&domain), Some(canonical_test_jwks()));
}

#[test]
fn test_delete_issuer() {
    let mut p = new_test_pallet();
    let domain = bounded_vec("example.com");
    let open_id_url = Some(create_test_openid_url());
    let jwks = Some(create_test_jwks());
    let interval_update = Some(100);

    assert!(p
        .register_issuer(ROOT, domain.clone(), open_id_url, jwks, interval_update)
        .is_ok());

    assert!(p.delete_issuer(ROOT, domain.clone()).is_ok());

    assert!(p.get_issuers_vec().is_empty());
    assert_eq!(p.get_jwks_url(&domain), None);
}

#[test]
fn test_set_enabled() {
    let mut p = new_test_pallet();
    let domain = bounded_vec("example.com");
    let open_id_url = Some(create_test_openid_url());
    let jwks = Some(create_test_jwks());
    let interval_update = Some(100);

    assert!(p
        .register_issuer(ROOT, domain.clone(), open_id_url, jwks, interval_update)
        .is_ok());

    assert!(p.set_enabled(ROOT, domain.clone(), false).is_ok());
    let entry = p.issuer_map.iter().find(|e| e.0 == domain).unwrap();
    assert!(!entry.1.is_enabled);

    assert!(p.set_enabled(ROOT, domain.clone(), true).is_ok());
    let entry = p.issuer_map.iter().find(|e| e.0 == domain).unwrap();
    assert!(entry.1.is_enabled);
}

#[test]
fn test_propose_jwks() {
    let mut p = new_test_pallet();
    let domain = bounded_vec("example.com");
    let open_id_url = Some(create_test_openid_url());
    let jwks = Some(create_test_jwks());
    let interval_update = Some(100);

    assert!(p
        .register_issuer(ROOT, domain.clone(), open_id_url, jwks, interval_update)
        .is_ok());

    let new_jwks = create_test_jwks();
    assert!(p.propose_jwks(1, domain.clone(), new_jwks.clone()).is_ok());

    let accounts = &p.accounts_proposed.iter().find(|e| e.0 == domain).unwrap().1;
    assert_eq!(accounts.len(), 1);
    assert_eq!(accounts[0], 1);

    assert_eq!(
        p.propose_jwks(1, domain.clone(), new_jwks.clone()),
        Err(Error::AlreadyProposedForJWKS)
    );
}

#[test]
fn test_set_jwks() {
    let mut p = new_test_pallet();
    let domain = bounded_vec("example.com");
    let open_id_url = Some(create_test_openid_url());
    let jwks = Some(create_test_jwks());
    let interval_update = Some(100);

    assert!(p
        .register_issuer(ROOT, domain.clone(), open_id_url, jwks, interval_update)
        .is_ok());

    let new_jwks = create_test_jwks();
    assert!(p.propose_jwks(1, domain.clone(), new_jwks).is_ok());

    assert!(p.set_jwks(1, domain.clone()).is_ok());

    assert_eq!(p.get_jwks_url(&domain), Some(canonical_test_jwks()));
}

#[test]
fn test_validate_json() {
    let p = new_test_pallet();

    let mut valid_json = bounded_vec(r#"{"key": "value"}"#);
    assert!(p.validate_json(&mut valid_json).is_ok());

    let mut invalid_json = bounded_vec(r#"{"key": "value"#);
    assert_eq!(p.validate_json(&mut invalid_json), Err(Error::InvalidJson));
}

#[test]
fn test_validate_interval_update() {
    let p = new_test_pallet();

    let mut interval = Some(5);
    p.validate_interval_update(&mut interval);
    assert_eq!(interval, Some(10));

    let mut interval = Some(2000);
    p.validate_interval_update(&mut interval);
    assert_eq!(interval, Some(1000));

    let mut interval = Some(500);
    p.validate_interval_update(&mut interval);
    assert_eq!(interval, Some(500));
}

#[test]
fn test_get_issuers_vec() {
    let mut p = new_test_pallet();
    let domain1 = bounded_vec("example1.com");
    let domain2 = bounded_vec("example2.com");
    let open_id_url = Some(create_test_openid_url());
    let jwks = Some(create_test_jwks());
    let interval_update = Some(100);

    assert!(p
        .register_issuer(ROOT, domain1.clone(), open_id_url.clone(), jwks.clone(), interval_update)
        .is_ok());
    assert!(p
        .register_issuer(ROOT, domain2.clone(), open_id_url, jwks, interval_update)
        .is_ok());

    let issuers = p.get_issuers_vec();
    assert_eq!(issuers.len(), 2);
    assert!(issuers.contains(&domain1));
    assert!(issuers.contains(&domain2));
}

#[test]
fn test_get_jwks_with_higher_count() {
    let mut p = new_test_pallet();
    let domain = bounded_vec("example.com");
    let open_id_url = Some(create_test_openid_url());
    let jwks = Some(create_test_jwks());
    let interval_update = Some(100);

    assert!(p
        .register_issuer(ROOT, domain.clone(), open_id_url, jwks, interval_update)
        .is_ok());

    let new_jwks = create_test_jwks();
    assert!(p.propose_jwks(1, domain.clone(), new_jwks.clone()).is_ok());
    assert!(p.propose_jwks(2, domain.clone(), new_jwks.clone()).is_ok());

    let winning_jwks = p.get_jwks_with_higher_count(&domain);
    assert_eq!(winning_jwks, canonical_test_jwks());
}
