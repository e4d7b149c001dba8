use moq::token::{parse_unix_timestamp, secret_size, Algorithm, Key, KeyOperation, Payload, TokenError};

#[test]
fn algorithm_names_roundtrip() {
    for a in [Algorithm::HS256, Algorithm::HS384, Algorithm::HS512] {
        assert_eq!(Algorithm::from_str(a.as_str()).unwrap(), a);
    }
    assert_eq!(Algorithm::HS384.as_str(), "HS384");
}

#[test]
fn unknown_algorithm() {
    assert_eq!(Algorithm::from_str("RS256"), Err(TokenError::InvalidAlgorithm("RS256".to_string())));
    assert_eq!(Algorithm::from_str("hs256"), Err(TokenError::InvalidAlgorithm("hs256".to_string())));
}

#[test]
fn generated_keys_sign_and_verify() {
    let key = Key::from_secret(Algorithm::HS256, Some("kid".to_string()), vec![7; 32]);
    assert!(key.supports(KeyOperation::Sign));
    assert!(key.supports(KeyOperation::Verify));
    assert!(!key.supports(KeyOperation::Decrypt));
    assert_eq!(key.check_sign(), Ok(()));
    assert_eq!(key.check_verify(), Ok(()));
    assert_eq!(key.kid.as_deref(), Some("kid"));
}

#[test]
fn key_operations_are_enforced() {
    let key = Key { algorithm: Algorithm::HS512, operations: vec![KeyOperation::Verify], secret: vec![1], kid: None };
    assert_eq!(key.check_sign(), Err(TokenError::CannotSign));
    assert_eq!(key.check_verify(), Ok(()));
    let key = Key { algorithm: Algorithm::HS512, operations: vec![KeyOperation::Sign], secret: vec![1], kid: None };
    assert_eq!(key.check_verify(), Err(TokenError::CannotVerify));
}

#[test]
fn secret_sizes() {
    assert_eq!(secret_size(Algorithm::HS256), 32);
    assert_eq!(secret_size(Algorithm::HS384), 48);
    assert_eq!(secret_size(Algorithm::HS512), 64);
}

#[test]
fn unix_timestamps() {
    assert_eq!(parse_unix_timestamp("1700000000"), Ok(1700000000));
    assert_eq!(parse_unix_timestamp("+5"), Ok(5));
    assert_eq!(parse_unix_timestamp("0"), Ok(0));
    assert_eq!(parse_unix_timestamp("-1"), Err(TokenError::TimestampOutOfRange));
    assert_eq!(parse_unix_timestamp("soon"), Err(TokenError::ExpectedTimestamp));
    assert_eq!(parse_unix_timestamp(""), Err(TokenError::ExpectedTimestamp));
    assert_eq!(parse_unix_timestamp("99999999999999999999"), Err(TokenError::ExpectedTimestamp));
}

#[test]
fn default_payload_grants_nothing() {
    let p = Payload::default();
    assert_eq!(p.path, "");
    assert!(p.publish.is_none() && p.subscribe.is_none() && p.publish_force.is_none());
    assert!(p.expires.is_none() && p.issued.is_none());
}

#[test]
fn generated_keys_have_random_secrets_of_the_right_size() {
    let a = Key::generate(Algorithm::HS384, None).unwrap();
    let b = Key::generate(Algorithm::HS384, None).unwrap();
    assert_eq!(a.secret.len(), 48);
    assert_ne!(a.secret, b.secret);
    assert_eq!(a.operations, vec![KeyOperation::Sign, KeyOperation::Verify]);
    assert_eq!(Key::generate(Algorithm::HS512, Some("x".to_string())).unwrap().secret.len(), 64);
}

#[test]
fn key_operations_are_kept_once() {
    let key = Key::new(
        Algorithm::HS256,
        vec![KeyOperation::Verify, KeyOperation::Sign, KeyOperation::Verify],
        vec![1],
        None,
    );
    assert_eq!(key.operations, vec![KeyOperation::Verify, KeyOperation::Sign]);
    assert_eq!(key.check_verify(), Ok(()));
}
