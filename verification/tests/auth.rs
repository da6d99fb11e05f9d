use otterwatch_mqtt::auth::ApiKeyValidator;

#[test]
fn test_validate_correct_key() {
    let validator = ApiKeyValidator::new(&["secret-key".to_string()], true);
    assert!(validator.validate("secret-key"));
}

#[test]
fn test_validate_incorrect_key() {
    let validator = ApiKeyValidator::new(&["secret-key".to_string()], true);
    assert!(!validator.validate("wrong-key"));
}

#[test]
fn test_validate_multiple_keys() {
    let validator = ApiKeyValidator::new(
        &["key1".to_string(), "key2".to_string(), "key3".to_string()],
        true,
    );
    assert!(validator.validate("key1"));
    assert!(validator.validate("key2"));
    assert!(validator.validate("key3"));
    assert!(!validator.validate("key4"));
}

#[test]
fn test_no_auth_required() {
    let validator = ApiKeyValidator::new(&[], false);
    assert!(validator.validate("anything"));
    assert!(validator.validate_optional(None));
}

#[test]
fn test_auth_required_no_key() {
    let validator = ApiKeyValidator::new(&["key".to_string()], true);
    assert!(!validator.validate_optional(None));
}

#[test]
fn test_allow_all() {
    let validator = ApiKeyValidator::allow_all();
    assert!(validator.validate("anything"));
    assert!(validator.validate_optional(None));
    assert!(!validator.is_auth_required());
}

#[test]
fn test_hash_consistency() {
    // Same key should produce same hash
    let hash1 = ApiKeyValidator::hash_key("test-key");
    let hash2 = ApiKeyValidator::hash_key("test-key");
    assert_eq!(hash1, hash2);

    // Different keys should produce different hashes
    let hash3 = ApiKeyValidator::hash_key("other-key");
    assert_ne!(hash1, hash3);
}

#[test]
fn hash_key_is_lowercase_hex_sha256() {
    // SHA-256 of the empty string, hex encoded.
    assert_eq!(
        ApiKeyValidator::hash_key(""),
        "e3b0c44298fc1c149afbf4c8996fb92427ae41e4649b934ca495991b7852b855"
    );
    // SHA-256 of "abc".
    assert_eq!(
        ApiKeyValidator::hash_key("abc"),
        "ba7816bf8f01cfea414140de5dae2223b00361a396177a9cb410ff61f20015ad"
    );
}

#[test]
fn hash_key_differs_from_key() {
    let h = ApiKeyValidator::hash_key("secret-key");
    assert_ne!(h, "secret-key");
    assert_eq!(h.len(), 64);
}

#[test]
fn validate_optional_with_key() {
    let validator = ApiKeyValidator::new(&["key".to_string()], true);
    assert!(validator.validate_optional(Some("key")));
    assert!(!validator.validate_optional(Some("nope")));
}

#[test]
fn key_count_counts_distinct_keys() {
    let validator = ApiKeyValidator::new(
        &["a".to_string(), "b".to_string(), "a".to_string()],
        true,
    );
    assert_eq!(validator.key_count(), 2);
    assert!(validator.is_auth_required());
    assert_eq!(ApiKeyValidator::allow_all().key_count(), 0);
}

#[test]
fn required_auth_with_no_keys_refuses_everything() {
    let validator = ApiKeyValidator::new(&[], true);
    assert!(!validator.validate(""));
    assert!(!validator.validate("anything"));
}

#[test]
fn key_count_is_number_of_distinct_keys() {
    let keys: Vec<String> = ["k1", "k2", "k1", "k3", "k2"].iter().map(|k| k.to_string()).collect();
    let validator = ApiKeyValidator::new(&keys, true);
    assert_eq!(validator.key_count(), 3);
}
