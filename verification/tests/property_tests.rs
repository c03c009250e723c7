use jwt_registry::registry::Pallet;
use jwt_registry::types::{Config, Error, Event};

const ROOT: u64 = 0;

fn small_config(max_proposers: u32) -> Config {
    Config {
        max_length_issuer_domain: 100,
        max_length_issuer_open_id_url: 200,
        max_length_issuer_jwks: 1_000,
        min_update_interval: 10,
        max_update_interval: 1_000,
        max_proposers_per_issuer: max_proposers,
    }
}

fn bounded_vec(s: &str) -> Vec<u8> {
    s.as_bytes().to_vec()
}

fn jwks_a() -> Vec<u8> {
    bounded_vec(r#"{"keys":[{"kid":"a","kty":"RSA"}]}"#)
}

fn canonical_jwks_a() -> Vec<u8> {
    bounded_vec(r#"{"keys":[{"kid":"a","kty":"RSA"}]}"#)
}

fn jwks_b() -> Vec<u8> {
    // Deliberately non-canonical key order.
    bounded_vec(r#"{"keys":[{"kty":"RSA","kid":"b"}]}"#)
}

fn canonical_jwks_b() -> Vec<u8> {
    bounded_vec(r#"{"keys":[{"kid":"b","kty":"RSA"}]}"#)
}

#[test]
fn duplicate_registration_leaves_state_untouched() {
    let mut p = Pallet::new(small_config(10), vec![1, 2]);
    let domain = bounded_vec("example.com");
    assert!(p.register_issuer(ROOT, domain.clone(), None, Some(jwks_a()), Some(100)).is_ok());

    let issuers_before = p.get_issuers_vec();
    let jwks_before = p.get_jwks_url(&domain);
    let events_before = p.events.len();

    assert_eq!(
        p.register_issuer(ROOT, domain.clone(), None, Some(jwks_b()), Some(200)),
        Err(Error::IssuerAlreadyExists)
    );

    assert_eq!(p.get_issuers_vec(), issuers_before);
    assert_eq!(p.get_jwks_url(&domain), jwks_before);
    assert_eq!(p.events.len(), events_before);
}

#[test]
fn identical_content_for_two_domains_is_stored_once() {
    let mut p = Pallet::new(small_config(10), vec![1, 2]);
    let d1 = bounded_vec("one.example");
    let d2 = bounded_vec("two.example");
    assert!(p.register_issuer(ROOT, d1.clone(), None, None, None).is_ok());
    assert!(p.register_issuer(ROOT, d2.clone(), None, None, None).is_ok());

    // Byte-identical after canonicalization: the key order differs.
    assert!(p.propose_jwks(1, d1.clone(), jwks_b()).is_ok());
    assert!(p
        .propose_jwks(1, d2.clone(), bounded_vec(r#"{"keys":[{"kid":"b","kty":"RSA"}]}"#))
        .is_ok());

    assert_eq!(p.jwks_hash.len(), 1);
    // The blob is keyed by a 256-bit content hash.
    assert_eq!(p.jwks_hash[0].0.len(), 32);
    assert_eq!(p.jwks_hash[0].1, canonical_jwks_b());

    // Both domains' counters reference that content.
    assert!(p.counter_proposed.iter().any(|e| e.0 == d1));
    assert!(p.counter_proposed.iter().any(|e| e.0 == d2));
}

#[test]
fn same_voter_twice_fails_regardless_of_content() {
    let mut p = Pallet::new(small_config(10), vec![1, 2]);
    let domain = bounded_vec("example.com");
    assert!(p.register_issuer(ROOT, domain.clone(), None, None, None).is_ok());

    assert!(p.propose_jwks(1, domain.clone(), jwks_a()).is_ok());
    // A different document from the same voter is still rejected.
    assert_eq!(
        p.propose_jwks(1, domain.clone(), jwks_b()),
        Err(Error::AlreadyProposedForJWKS)
    );
}

#[test]
fn proposer_capacity_is_enforced() {
    let mut p = Pallet::new(small_config(2), vec![1, 2, 3]);
    let domain = bounded_vec("example.com");
    assert!(p.register_issuer(ROOT, domain.clone(), None, None, None).is_ok());

    assert!(p.propose_jwks(1, domain.clone(), jwks_a()).is_ok());
    assert!(p.propose_jwks(2, domain.clone(), jwks_a()).is_ok());
    assert_eq!(
        p.propose_jwks(3, domain.clone(), jwks_a()),
        Err(Error::MaxProposersPerIssuerExceeded)
    );
}

#[test]
fn tally_installs_highest_count() {
    let mut p = Pallet::new(small_config(10), vec![1, 2, 3]);
    let domain = bounded_vec("example.com");
    assert!(p.register_issuer(ROOT, domain.clone(), None, Some(jwks_a()), None).is_ok());

    // Two votes for B beat the registration-time A, which received none.
    assert!(p.propose_jwks(1, domain.clone(), jwks_b()).is_ok());
    assert!(p.propose_jwks(2, domain.clone(), jwks_b()).is_ok());

    assert!(p.set_jwks(1, domain.clone()).is_ok());
    assert_eq!(p.get_jwks_url(&domain), Some(canonical_jwks_b()));
}

#[test]
fn tally_tie_keeps_first_seen_content() {
    let mut p = Pallet::new(small_config(10), vec![1, 2, 3, 4]);
    let domain = bounded_vec("example.com");
    assert!(p.register_issuer(ROOT, domain.clone(), None, None, None).is_ok());

    // Two contents tied at two votes each; A was counted first.
    assert!(p.propose_jwks(1, domain.clone(), jwks_a()).is_ok());
    assert!(p.propose_jwks(2, domain.clone(), jwks_b()).is_ok());
    assert!(p.propose_jwks(3, domain.clone(), jwks_a()).is_ok());
    assert!(p.propose_jwks(4, domain.clone(), jwks_b()).is_ok());

    let winner = p.get_jwks_with_higher_count(&domain);
    // Never a third value; the scan keeps the first of the tied maxima.
    assert!(winner == canonical_jwks_a() || winner == canonical_jwks_b());
    assert_eq!(winner, canonical_jwks_a());
}

#[test]
fn tally_without_proposals_clears_active_jwks() {
    let mut p = Pallet::new(small_config(10), vec![1, 2]);
    let domain = bounded_vec("example.com");
    assert!(p.register_issuer(ROOT, domain.clone(), None, Some(jwks_a()), None).is_ok());
    assert_eq!(p.get_jwks_url(&domain), Some(canonical_jwks_a()));

    // With no proposals the empty winner is installed, revoking the
    // previously active key set.
    assert!(p.set_jwks(1, domain.clone()).is_ok());
    assert_eq!(p.get_jwks_url(&domain), Some(Vec::new()));
}

#[test]
fn delete_tears_down_all_satellite_state() {
    let mut p = Pallet::new(small_config(10), vec![1, 2]);
    let domain = bounded_vec("example.com");
    assert!(p.register_issuer(ROOT, domain.clone(), None, Some(jwks_a()), Some(100)).is_ok());
    assert!(p.propose_jwks(1, domain.clone(), jwks_b()).is_ok());

    assert!(p.delete_issuer(ROOT, domain.clone()).is_ok());

    assert!(p.get_issuers_vec().is_empty());
    assert_eq!(p.get_jwks_url(&domain), None);
    assert!(!p.accounts_proposed.iter().any(|e| e.0 == domain));
    assert!(!p.counter_proposed.iter().any(|e| e.0 == domain));
    // Deleting again reports the absence.
    assert_eq!(p.delete_issuer(ROOT, domain), Err(Error::IssuerDoesNotExist));
}

#[test]
fn malformed_proposal_leaves_no_trace() {
    let mut p = Pallet::new(small_config(10), vec![1, 2]);
    let domain = bounded_vec("example.com");
    assert!(p.register_issuer(ROOT, domain.clone(), None, None, None).is_ok());

    assert_eq!(
        p.propose_jwks(1, domain.clone(), bounded_vec(r#"{"key": "value"#)),
        Err(Error::InvalidJson)
    );

    assert!(p.jwks_hash.is_empty());
    assert!(!p.accounts_proposed.iter().any(|e| e.0 == domain));
    assert!(!p.counter_proposed.iter().any(|e| e.0 == domain));
}

#[test]
fn propose_requires_an_authorized_voter() {
    let mut p = Pallet::new(small_config(10), vec![1, 2]);
    let domain = bounded_vec("example.com");
    assert!(p.register_issuer(ROOT, domain.clone(), None, None, None).is_ok());

    assert_eq!(
        p.propose_jwks(99, domain.clone(), jwks_a()),
        Err(Error::OnlyValidatorsCanProposeJWKS)
    );
    assert_eq!(
        p.propose_jwks(1, bounded_vec("unknown.example"), jwks_a()),
        Err(Error::IssuerDoesNotExist)
    );
}

#[test]
fn register_rejects_oversized_fields() {
    let mut p = Pallet::new(small_config(10), vec![1]);

    let long_domain = vec![b'a'; 101];
    assert_eq!(
        p.register_issuer(ROOT, long_domain, None, None, None),
        Err(Error::IssuerDomainTooLong)
    );

    let long_url = vec![b'u'; 201];
    assert_eq!(
        p.register_issuer(ROOT, bounded_vec("example.com"), Some(long_url), None, None),
        Err(Error::IssuerOpenIdURLTooLong)
    );

    let long_jwks = vec![b'x'; 1_001];
    assert_eq!(
        p.register_issuer(ROOT, bounded_vec("example.com"), None, Some(long_jwks), None),
        Err(Error::IssuerJWKSTooLong)
    );

    assert_eq!(
        p.register_issuer(ROOT, bounded_vec("example.com"), None, Some(bounded_vec("{]")), None),
        Err(Error::InvalidJson)
    );
}

#[test]
fn canonical_form_longer_than_bound_is_rejected() {
    let mut p = Pallet::new(
        Config {
            max_length_issuer_domain: 100,
            max_length_issuer_open_id_url: 200,
            max_length_issuer_jwks: 10,
            min_update_interval: 10,
            max_update_interval: 1_000,
            max_proposers_per_issuer: 10,
        },
        vec![1],
    );
    // Ten bytes of input whose canonical form is eleven bytes long:
    // `1e2` re-serializes as `100.0`.
    let mut v = bounded_vec(r#"{"a": 1e2}"#);
    assert_eq!(p.validate_json(&mut v), Err(Error::JsonTooLong));
    assert_eq!(v, bounded_vec(r#"{"a": 1e2}"#));

    assert_eq!(
        p.register_issuer(ROOT, bounded_vec("e.com"), None, Some(bounded_vec(r#"{"a": 1e2}"#)), None),
        Err(Error::JsonTooLong)
    );
}

#[test]
fn set_update_interval_clamps_into_range() {
    let mut p = Pallet::new(small_config(10), vec![1]);
    let domain = bounded_vec("example.com");
    assert!(p.register_issuer(ROOT, domain.clone(), None, None, None).is_ok());

    assert!(p.set_update_interval(ROOT, domain.clone(), Some(5)).is_ok());
    let issuer = &p.issuer_map.iter().find(|e| e.0 == domain).unwrap().1;
    assert_eq!(issuer.interval_update, Some(10));

    assert!(p.set_update_interval(ROOT, domain.clone(), Some(2_000)).is_ok());
    let issuer = &p.issuer_map.iter().find(|e| e.0 == domain).unwrap().1;
    assert_eq!(issuer.interval_update, Some(1_000));

    assert!(p.set_update_interval(ROOT, domain.clone(), None).is_ok());
    let issuer = &p.issuer_map.iter().find(|e| e.0 == domain).unwrap().1;
    assert_eq!(issuer.interval_update, None);

    assert_eq!(
        p.set_update_interval(ROOT, bounded_vec("unknown.example"), Some(5)),
        Err(Error::IssuerDoesNotExist)
    );
}

#[test]
fn set_open_id_url_skips_redundant_writes() {
    let mut p = Pallet::new(small_config(10), vec![1]);
    let domain = bounded_vec("example.com");
    assert!(p.register_issuer(ROOT, domain.clone(), None, None, None).is_ok());

    let url = bounded_vec("https://example.com/.well-known/openid-configuration");
    assert!(p.set_open_id_url(ROOT, domain.clone(), url.clone()).is_ok());
    assert_eq!(p.get_open_id_url(&domain), Some(url.clone()));
    let events_after_write = p.events.len();

    // Setting the same URL again writes nothing and emits no event.
    assert!(p.set_open_id_url(ROOT, domain.clone(), url.clone()).is_ok());
    assert_eq!(p.events.len(), events_after_write);

    assert_eq!(
        p.set_open_id_url(ROOT, domain.clone(), vec![b'u'; 201]),
        Err(Error::IssuerOpenIdURLTooLong)
    );
    assert_eq!(
        p.set_open_id_url(ROOT, bounded_vec("unknown.example"), url),
        Err(Error::IssuerDoesNotExist)
    );
}

#[test]
fn update_without_jwks_clears_active_jwks() {
    let mut p = Pallet::new(small_config(10), vec![1]);
    let domain = bounded_vec("example.com");
    assert!(p.register_issuer(ROOT, domain.clone(), None, Some(jwks_a()), None).is_ok());
    assert_eq!(p.get_jwks_url(&domain), Some(canonical_jwks_a()));

    // Full-replace semantics: an absent JWKS removes the active entry.
    assert!(p.update_issuer(ROOT, domain.clone(), None, None, None, true).is_ok());
    assert_eq!(p.get_jwks_url(&domain), None);

    assert_eq!(
        p.update_issuer(ROOT, bounded_vec("unknown.example"), None, None, None, true),
        Err(Error::IssuerDoesNotExist)
    );
}

#[test]
fn set_enabled_same_value_emits_no_event() {
    let mut p = Pallet::new(small_config(10), vec![1]);
    let domain = bounded_vec("example.com");
    assert!(p.register_issuer(ROOT, domain.clone(), None, None, None).is_ok());
    let events_before = p.events.len();

    // Registration enables the issuer; enabling it again is a no-op.
    assert!(p.set_enabled(ROOT, domain.clone(), true).is_ok());
    assert_eq!(p.events.len(), events_before);

    assert!(p.set_enabled(ROOT, domain.clone(), false).is_ok());
    assert_eq!(p.events.len(), events_before + 1);
}

#[test]
fn successful_operations_emit_events() {
    let mut p = Pallet::new(small_config(10), vec![1]);
    let domain = bounded_vec("example.com");
    assert!(p.register_issuer(ROOT, domain.clone(), None, None, None).is_ok());
    assert!(p.propose_jwks(1, domain.clone(), jwks_a()).is_ok());
    assert!(p.delete_issuer(ROOT, domain.clone()).is_ok());

    assert_eq!(p.events.len(), 3);
    assert!(matches!(&p.events[0], Event::IssuerRegistered { who: 0, domain: d } if *d == domain));
    assert!(matches!(&p.events[1], Event::IssuerJWKSUpdated { who: 1, domain: d } if *d == domain));
    assert!(matches!(&p.events[2], Event::IssuerDeleted { who: 0, domain: d } if *d == domain));
}
