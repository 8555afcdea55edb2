use shibei::pairing::{decrypt_payload, encrypt_payload, Envelope, PairingError, MAX_PAYLOAD_BYTES};
use shibei::sync_crypto::{decrypt, encrypt, CryptoError};
use base64::Engine;

const SAMPLE: &[u8] = b"{\"endpoint\":\"https://s3.example.com\",\"bucket\":\"b\"}";

fn b64() -> base64::engine::GeneralPurpose {
    base64::engine::general_purpose::URL_SAFE_NO_PAD
}

fn copy(e: &Envelope) -> Envelope {
    Envelope { v: e.v, salt: e.salt.clone(), nonce: e.nonce.clone(), ct: e.ct.clone() }
}

#[test]
fn round_trip_succeeds() {
    let env = encrypt_payload("123456", SAMPLE).unwrap();
    let plain = decrypt_payload("123456", Ok(env)).unwrap();
    assert_eq!(plain, SAMPLE);
}

#[test]
fn different_pins_produce_different_envelopes() {
    let a = encrypt_payload("123456", SAMPLE).unwrap();
    let b = encrypt_payload("654321", SAMPLE).unwrap();
    assert_ne!(a.ct, b.ct);
}

#[test]
fn wrong_pin_fails_to_decrypt() {
    let env = encrypt_payload("123456", SAMPLE).unwrap();
    let err = decrypt_payload("654321", Ok(env)).unwrap_err();
    assert!(matches!(err, PairingError::DecryptFailed));
}

#[test]
fn tampered_ciphertext_fails() {
    let env = encrypt_payload("123456", SAMPLE).unwrap();
    let mut bytes = b64().decode(env.ct.as_bytes()).unwrap();
    bytes[0] ^= 0x01;
    let mut t = copy(&env);
    t.ct = b64().encode(&bytes);
    let err = decrypt_payload("123456", Ok(t)).unwrap_err();
    assert!(matches!(err, PairingError::DecryptFailed));
}

#[test]
fn tampered_nonce_fails() {
    let env = encrypt_payload("123456", SAMPLE).unwrap();
    let mut bytes = b64().decode(env.nonce.as_bytes()).unwrap();
    bytes[0] ^= 0x01;
    let mut t = copy(&env);
    t.nonce = b64().encode(&bytes);
    let err = decrypt_payload("123456", Ok(t)).unwrap_err();
    assert!(matches!(err, PairingError::DecryptFailed));
}

#[test]
fn tampered_salt_fails() {
    let env = encrypt_payload("123456", SAMPLE).unwrap();
    let mut bytes = b64().decode(env.salt.as_bytes()).unwrap();
    bytes[0] ^= 0x01;
    let mut t = copy(&env);
    t.salt = b64().encode(&bytes);
    let err = decrypt_payload("123456", Ok(t)).unwrap_err();
    assert!(matches!(err, PairingError::DecryptFailed));
}

#[test]
fn invalid_pin_length_rejected() {
    assert!(matches!(encrypt_payload("12345", SAMPLE).unwrap_err(), PairingError::InvalidPin));
    assert!(matches!(encrypt_payload("1234567", SAMPLE).unwrap_err(), PairingError::InvalidPin));
}

#[test]
fn invalid_pin_non_digit_rejected() {
    assert!(matches!(encrypt_payload("12345a", SAMPLE).unwrap_err(), PairingError::InvalidPin));
    assert!(matches!(
        decrypt_payload(" 12345", Err("missing field `v`".to_string())).unwrap_err(),
        PairingError::InvalidPin
    ));
}

#[test]
fn oversized_payload_rejected() {
    let big = vec![0u8; MAX_PAYLOAD_BYTES + 1];
    let err = encrypt_payload("123456", &big).unwrap_err();
    assert!(matches!(
        err,
        PairingError::PayloadTooLarge { size, limit } if size == MAX_PAYLOAD_BYTES + 1 && limit == MAX_PAYLOAD_BYTES
    ));
    assert_eq!(err.message(), "payload exceeds 512 bytes (got 513)");
}

#[test]
fn exactly_max_payload_accepted() {
    let max = vec![0u8; MAX_PAYLOAD_BYTES];
    let env = encrypt_payload("123456", &max).unwrap();
    let plain = decrypt_payload("123456", Ok(env)).unwrap();
    assert_eq!(plain, max);
}

#[test]
fn malformed_envelope_rejected() {
    assert!(matches!(
        decrypt_payload("123456", Err("expected ident at line 1 column 2".to_string())).unwrap_err(),
        PairingError::InvalidEnvelope(_)
    ));
    let bad = Envelope { v: 1, salt: "!!!".to_string(), nonce: String::new(), ct: String::new() };
    assert!(matches!(decrypt_payload("123456", Ok(bad)).unwrap_err(), PairingError::InvalidEnvelope(_)));
}

#[test]
fn unsupported_version_rejected() {
    let env = Envelope {
        v: 99,
        salt: "AAAAAAAAAAAAAAAAAAAAAA".to_string(),
        nonce: "AAAAAAAAAAAAAAAAAAAAAAAAAAAAAAAA".to_string(),
        ct: "AA".to_string(),
    };
    let err = decrypt_payload("123456", Ok(env)).unwrap_err();
    assert!(matches!(err, PairingError::UnsupportedVersion(99)));
}

#[test]
fn envelopes_vary_between_calls_with_same_input() {
    let a = encrypt_payload("123456", SAMPLE).unwrap();
    let b = encrypt_payload("123456", SAMPLE).unwrap();
    assert_ne!((a.salt, a.nonce, a.ct), (b.salt, b.nonce, b.ct));
}

#[test]
fn short_salt_is_reported_with_its_length() {
    let env = Envelope { v: 1, salt: b64().encode([1u8; 4]), nonce: b64().encode([0u8; 24]), ct: String::new() };
    match decrypt_payload("123456", Ok(env)) {
        Err(PairingError::InvalidEnvelope(m)) => assert_eq!(m, "salt length: expected 16, got 4"),
        _ => panic!("expected an invalid envelope"),
    }
}

#[test]
fn test_encrypt_decrypt_roundtrip() {
    let key = [42u8; 32];
    let plaintext = b"hello world";
    let aad = b"test/key.txt";
    let encrypted = encrypt(plaintext, &key, aad).unwrap();
    let decrypted = decrypt(&encrypted, &key, aad).unwrap();
    assert_eq!(decrypted, plaintext);
}

#[test]
fn test_encrypted_format_has_version_and_nonce() {
    let key = [1u8; 32];
    let encrypted = encrypt(b"data", &key, b"aad").unwrap();
    assert_eq!(encrypted[0], 0x01);
    assert!(encrypted.len() > 1 + 24 + 16);
}

#[test]
fn test_decrypt_wrong_key_fails() {
    let key1 = [1u8; 32];
    let key2 = [2u8; 32];
    let encrypted = encrypt(b"secret", &key1, b"aad").unwrap();
    let result = decrypt(&encrypted, &key2, b"aad");
    assert!(result.is_err());
}

#[test]
fn test_decrypt_wrong_aad_fails() {
    let key = [1u8; 32];
    let encrypted = encrypt(b"secret", &key, b"path/a").unwrap();
    let result = decrypt(&encrypted, &key, b"path/b");
    assert!(result.is_err());
}

#[test]
fn test_decrypt_corrupted_data_fails() {
    let key = [1u8; 32];
    let mut encrypted = encrypt(b"secret", &key, b"aad").unwrap();
    let last = encrypted.len() - 1;
    encrypted[last] ^= 0xff;
    let result = decrypt(&encrypted, &key, b"aad");
    assert!(result.is_err());
}

#[test]
fn test_decrypt_too_short_data_fails() {
    let key = [1u8; 32];
    let result = decrypt(&[0x01, 0x02], &key, b"aad");
    assert!(result.is_err());
}

#[test]
fn test_decrypt_wrong_version_fails() {
    let key = [1u8; 32];
    let mut encrypted = encrypt(b"data", &key, b"aad").unwrap();
    encrypted[0] = 0x99;
    let result = decrypt(&encrypted, &key, b"aad");
    assert!(result.is_err());
}

#[test]
fn decrypt_format_errors_are_described() {
    let key = [1u8; 32];
    match decrypt(&[0x01, 0x02], &key, b"aad") {
        Err(CryptoError::InvalidFormat(m)) => assert_eq!(m, "data too short: 2 bytes, need at least 41"),
        _ => panic!("expected a format error"),
    }
    let mut encrypted = encrypt(b"data", &key, b"aad").unwrap();
    encrypted[0] = 0x9a;
    match decrypt(&encrypted, &key, b"aad") {
        Err(e @ CryptoError::InvalidFormat(_)) => {
            assert_eq!(e.message(), "invalid encrypted data: unsupported version: 0x9a")
        }
        _ => panic!("expected a format error"),
    }
}
