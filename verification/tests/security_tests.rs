use base64::Engine;
use scanlink::security::{
    create_auth_token, create_auth_token_at, decrypt, encrypt, generate_master_token,
    generate_secret_key, i64_to_string, validate_auth_token, AuthorizedDevice,
};

#[test]
fn test_encrypt_decrypt() {
    let key = generate_secret_key();
    let plaintext = "Hello, World!";

    let encrypted = encrypt(&key, plaintext).unwrap();
    let decrypted = decrypt(&key, &encrypted).unwrap();

    assert_eq!(plaintext, decrypted);
}

#[test]
fn test_auth_token() {
    let key = generate_secret_key();
    let device_id = "test-device-123";

    let auth_token = create_auth_token(device_id, &key);
    assert!(!auth_token.is_empty());
    assert!(validate_auth_token(&auth_token, device_id, &key));
}

#[test]
fn test_invalid_master_token() {
    let key = generate_secret_key();
    let device_id = "test-device-123";
    let wrong_key = generate_secret_key();

    let auth_token = create_auth_token(device_id, &key);
    let result = validate_auth_token(&auth_token, device_id, &wrong_key);

    assert!(!result);
}

#[test]
fn encrypt_round_trips_empty_and_unicode() {
    let key = generate_secret_key();
    for plaintext in ["", "a", "Zé çarrega 今日は \u{1F600}", "line1\nline2\t:colon:"] {
        let encrypted = encrypt(&key, plaintext).unwrap();
        assert_eq!(decrypt(&key, &encrypted).unwrap(), plaintext);
    }
}

#[test]
fn encrypt_is_nondeterministic_but_both_decrypt() {
    let key = generate_secret_key();
    let c1 = encrypt(&key, "same text").unwrap();
    let c2 = encrypt(&key, "same text").unwrap();
    assert_ne!(c1, c2, "a fresh nonce must be drawn per call");
    assert_eq!(decrypt(&key, &c1).unwrap(), "same text");
    assert_eq!(decrypt(&key, &c2).unwrap(), "same text");
}

#[test]
fn decrypt_under_other_key_fails() {
    let k1 = generate_secret_key();
    let k2 = generate_secret_key();
    let c = encrypt(&k1, "secret payload").unwrap();
    assert!(decrypt(&k2, &c).is_err());
}

#[test]
fn decrypt_error_cases() {
    let key = generate_secret_key();

    // A bad key is a configuration error and is reported as such.
    let r = decrypt("not base64 !!!", "whatever");
    assert_eq!(r.unwrap_err(), "Invalid secret key");

    let short_key = base64::engine::general_purpose::STANDARD.encode([1u8, 2, 3]);
    let r = decrypt(&short_key, "whatever");
    assert_eq!(r.unwrap_err(), "Secret key must be 32 bytes");

    // Every tampered or truncated blob draws one undifferentiated error:
    // which stage rejected it is never leaked.
    let opaque = "Decryption failed - invalid token or tampered data";

    let r = decrypt(&key, "not base64 !!!");
    assert_eq!(r.unwrap_err(), opaque);

    let short_blob = base64::engine::general_purpose::STANDARD.encode([0u8; 4]);
    let r = decrypt(&key, &short_blob);
    assert_eq!(r.unwrap_err(), opaque);

    let garbage_blob = base64::engine::general_purpose::STANDARD.encode([0u8; 32]);
    let r = decrypt(&key, &garbage_blob);
    assert_eq!(r.unwrap_err(), opaque);

    let truncated = {
        let whole = encrypt(&key, "payload").unwrap();
        whole[..whole.len() - 8].to_string()
    };
    let r = decrypt(&key, &truncated);
    assert_eq!(r.unwrap_err(), opaque);
}

#[test]
fn encrypt_rejects_bad_keys() {
    assert!(encrypt("not base64 !!!", "text").is_err());
    let short_key = base64::engine::general_purpose::STANDARD.encode([9u8; 8]);
    assert!(encrypt(&short_key, "text").is_err());
}

#[test]
fn tampered_token_is_rejected() {
    let key = generate_secret_key();
    let token = create_auth_token("dev-9", &key);
    let mut tampered: String = token.chars().rev().collect();
    tampered.truncate(tampered.len().saturating_sub(2));
    assert!(!validate_auth_token(&tampered, "dev-9", &key));
}

#[test]
fn token_binds_the_device() {
    let key = generate_secret_key();
    let token = create_auth_token_at("device-a", &key, 1_700_000_000);
    assert!(validate_auth_token(&token, "device-a", &key));
    assert!(!validate_auth_token(&token, "device-b", &key));
    assert!(!validate_auth_token(&token, "device-a ", &key));
    assert!(!validate_auth_token(&token, "device", &key));
}

#[test]
fn colon_in_device_id_binds_to_the_prefix() {
    // Parsing cuts the device part at the first colon, so a device id that
    // itself holds a colon never matches its own token.
    let key = generate_secret_key();
    let token = create_auth_token_at("a:b", &key, 42);
    assert!(!token.is_empty());
    assert!(!validate_auth_token(&token, "a:b", &key));
    // ... and in fact validates for the prefix before the colon.
    assert!(validate_auth_token(&token, "a", &key));
}

#[test]
fn generate_secret_key_is_32_bytes_base64() {
    let key = generate_secret_key();
    assert_eq!(key.len(), 44);
    let bytes = base64::engine::general_purpose::STANDARD
        .decode(&key)
        .unwrap();
    assert_eq!(bytes.len(), 32);
}

#[test]
fn generate_master_token_is_32_alphanumeric() {
    let token = generate_master_token();
    assert_eq!(token.chars().count(), 32);
    assert!(token.chars().all(|c| c.is_ascii_alphanumeric()));
    let other = generate_master_token();
    assert_ne!(token, other, "two draws almost surely differ");
}

#[test]
fn i64_to_string_matches_decimal_rendering() {
    assert_eq!(i64_to_string(0), "0");
    assert_eq!(i64_to_string(7), "7");
    assert_eq!(i64_to_string(10), "10");
    assert_eq!(i64_to_string(1_700_000_000), "1700000000");
    assert_eq!(i64_to_string(-1), "-1");
    assert_eq!(i64_to_string(-42), "-42");
    assert_eq!(i64_to_string(i64::MAX), "9223372036854775807");
    assert_eq!(i64_to_string(i64::MIN), "-9223372036854775808");
}

#[test]
fn authorized_device_new_stamps_both_times() {
    let dev = AuthorizedDevice::new(
        "dev-1".to_string(),
        "Phone".to_string(),
        Some("Pixel".to_string()),
    );
    assert_eq!(dev.device_id, "dev-1");
    assert_eq!(dev.device_name, "Phone");
    assert_eq!(dev.device_model.as_deref(), Some("Pixel"));
    assert_eq!(dev.paired_at, dev.last_seen);
    assert!(!dev.paired_at.is_empty());
}
