//! Key derivation and authenticated encryption, exercised end to end with
//! the real hashing and cipher crates.

use account_vault::cipher::{decrypt_data, encrypt_credentials, decrypt_credentials, encrypt_data};
use account_vault::keys::{derive_encryption_key, derive_master_key, hash_key};

#[test]
fn test_derive_master_key() {
    let key1 = derive_master_key();
    let key2 = derive_master_key();

    assert_eq!(key1, key2);
    assert_eq!(key1.len(), 32);
}

#[test]
fn test_derive_encryption_key_consistency() {
    let username = "test_user";

    let key1 = derive_encryption_key(username).unwrap();
    let key2 = derive_encryption_key(username).unwrap();

    assert_eq!(key1, key2);
}

#[test]
fn test_derive_encryption_key_isolation() {
    let key1 = derive_encryption_key("user1").unwrap();
    let key2 = derive_encryption_key("user2").unwrap();

    assert_eq!(key1.len(), 32);
    assert_eq!(key2.len(), 32);
    assert_ne!(key1, key2);
}

#[test]
fn test_encryption_roundtrip() {
    let username = "test_user";
    let original = r#"{"username":"test","token":"secret123"}"#;

    let encrypted = encrypt_credentials(original, username).unwrap();
    let decrypted = decrypt_credentials(&encrypted, username).unwrap();

    assert_eq!(original, decrypted);
}

#[test]
fn test_encryption_wrong_user() {
    let original = r#"{"username":"test","token":"secret"}"#;

    let encrypted = encrypt_credentials(original, "user1").unwrap();
    let result = decrypt_credentials(&encrypted, "user2");

    assert!(result.is_err());
}

#[test]
fn test_encryption_different_each_time() {
    let username = "test_user";
    let original = r#"{"username":"test","token":"secret123"}"#;

    let encrypted1 = encrypt_credentials(original, username).unwrap();
    let encrypted2 = encrypt_credentials(original, username).unwrap();

    assert_ne!(encrypted1, encrypted2);

    let decrypted1 = decrypt_credentials(&encrypted1, username).unwrap();
    let decrypted2 = decrypt_credentials(&encrypted2, username).unwrap();

    assert_eq!(decrypted1, original);
    assert_eq!(decrypted2, original);
}

#[test]
fn test_decrypt_corrupted_data() {
    let username = "test_user";
    let corrupted_data = vec![1, 2, 3, 4, 5];

    let result = decrypt_credentials(&corrupted_data, username);

    assert!(result.is_err());
}

#[test]
fn test_encrypt_data_roundtrip() {
    let key = derive_master_key();
    let plaintext = "the payload under the master key";

    let blob = encrypt_data(plaintext, &key).unwrap();
    let blob2 = encrypt_data(plaintext, &key).unwrap();
    let back = decrypt_data(&blob, &key).unwrap();
    let back2 = decrypt_data(&blob2, &key).unwrap();

    // Fresh nonces make the two encryptions differ, yet both store the
    // same payload.
    assert_ne!(blob, blob2);
    assert_eq!(back, plaintext);
    assert_eq!(back2, plaintext);
}

#[test]
fn test_encrypt_data_empty_payload() {
    let key = derive_master_key();

    let blob = encrypt_data("", &key).unwrap();
    let back = decrypt_data(&blob, &key).unwrap();

    assert_eq!(back, "");
}

#[test]
fn test_decrypt_data_wrong_key() {
    let k1 = derive_encryption_key("alpha").unwrap();
    let k2 = derive_encryption_key("beta").unwrap();

    let blob = encrypt_data("payload", &k1).unwrap();
    assert!(decrypt_data(&blob, &k2).is_err());
}

#[test]
fn test_decrypt_data_tampered_blob() {
    let key = derive_master_key();
    let blob = encrypt_data("payload", &key).unwrap();

    // Flip one character of the base64 text.
    let mut chars: Vec<char> = blob.chars().collect();
    let first = chars[0];
    chars[0] = if first == 'A' { 'B' } else { 'A' };
    let corrupted: String = chars.into_iter().collect();

    assert!(decrypt_data(&corrupted, &key).is_err());
}

#[test]
fn test_decrypt_data_not_base64() {
    let key = derive_master_key();
    assert!(decrypt_data("this is not base64!!", &key).is_err());
}

#[test]
fn test_hash_key_deterministic() {
    let h1 = hash_key("accounts_list");
    let h2 = hash_key("accounts_list");
    let other = hash_key("credentials");

    assert_eq!(h1, h2);
    assert_ne!(h1, other);
    assert!(!h1.is_empty());
}
