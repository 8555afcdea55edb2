use shibei::lock::{disable, is_configured, lockout_remaining_secs, setup_pin, unlock_with_pin, SecurityPrefs};
use shibei::mobile_lock::LockError;
use shibei::pin::{hash_pin, validate_pin, verify_pin, PinHashBlob};
use shibei::throttle::ThrottleState;
use shibei::wrap::{derive_kek, unwrap_mk, wrap_mk};
use base64::Engine;

#[test]
fn validate_accepts_4_digits() {
    validate_pin("1234").unwrap();
    validate_pin("0000").unwrap();
}

#[test]
fn validate_rejects_non_digits() {
    assert!(matches!(validate_pin("abcd"), Err(LockError::PinFormat)));
    assert!(matches!(validate_pin("12a4"), Err(LockError::PinFormat)));
}

#[test]
fn validate_rejects_wrong_length() {
    assert!(matches!(validate_pin("123"), Err(LockError::PinFormat)));
    assert!(matches!(validate_pin("12345"), Err(LockError::PinFormat)));
    assert!(matches!(validate_pin(""), Err(LockError::PinFormat)));
}

#[test]
fn hash_verify_round_trip() {
    let (blob, _) = hash_pin("1357").unwrap();
    let salt = verify_pin("1357", &blob).unwrap();
    assert_eq!(salt.len(), 16);
}

#[test]
fn verify_rejects_wrong_pin() {
    let (blob, _) = hash_pin("1357").unwrap();
    assert!(matches!(verify_pin("1358", &blob), Err(LockError::WrongPin)));
}

#[test]
fn verify_rejects_tampered_blob() {
    let (blob, _) = hash_pin("1357").unwrap();
    let mut salt: Vec<char> = blob.salt.chars().collect();
    for c in salt.iter_mut() {
        if c.is_ascii_alphanumeric() {
            *c = if *c == 'A' { 'B' } else { 'A' };
            break;
        }
    }
    let tampered = PinHashBlob { version: blob.version, salt: salt.into_iter().collect(), hash: blob.hash.clone() };
    let res = verify_pin("1357", &tampered);
    assert!(matches!(res, Err(LockError::WrongPin) | Err(LockError::Corrupted(_))));
}

#[test]
fn verify_reports_unsupported_version() {
    let (blob, _) = hash_pin("1357").unwrap();
    let other = PinHashBlob { version: 2, salt: blob.salt.clone(), hash: blob.hash.clone() };
    match verify_pin("1357", &other) {
        Err(LockError::Corrupted(m)) => assert_eq!(m, "unsupported pin_hash version 2"),
        _ => panic!("expected a corrupted blob"),
    }
}

#[test]
fn lock_error_messages() {
    assert_eq!(LockError::PinFormat.message(), "error.pinMustBe4Digits");
    assert_eq!(LockError::WrongPin.message(), "error.pinIncorrect");
    assert_eq!(LockError::Corrupted("x".to_string()).message(), "error.secureStoreCorrupted: x");
    assert_eq!(LockError::Throttled(30).message(), "error.lockThrottled:30");
}

#[test]
fn fresh_state_not_locked() {
    let s = ThrottleState::default();
    assert_eq!(s.remaining_secs(1_000), 0);
}

#[test]
fn fifth_failure_triggers_30s() {
    let mut s = ThrottleState::default();
    for _ in 0..4 {
        s.on_failure(1_000);
        assert_eq!(s.lockout_until_ms, 0);
    }
    s.on_failure(1_000);
    assert_eq!(s.failed_attempts, 5);
    assert_eq!(s.lockout_until_ms, 1_000 + 30 * 1000);
    assert_eq!(s.remaining_secs(1_000), 30);
}

#[test]
fn tenth_failure_triggers_5min() {
    let mut s = ThrottleState::default();
    for _ in 0..10 {
        s.on_failure(1_000);
    }
    assert_eq!(s.failed_attempts, 10);
    assert_eq!(s.lockout_until_ms, 1_000 + 5 * 60 * 1000);
}

#[test]
fn fifteenth_failure_triggers_30min() {
    let mut s = ThrottleState::default();
    for _ in 0..15 {
        s.on_failure(1_000);
    }
    assert_eq!(s.lockout_until_ms, 1_000 + 30 * 60 * 1000);
}

#[test]
fn twentieth_failure_stays_at_30min() {
    let mut s = ThrottleState::default();
    for _ in 0..20 {
        s.on_failure(1_000);
    }
    assert_eq!(s.lockout_until_ms, 1_000 + 30 * 60 * 1000);
}

#[test]
fn success_resets_counters() {
    let mut s = ThrottleState::default();
    for _ in 0..6 {
        s.on_failure(1_000);
    }
    s.on_success();
    assert_eq!(s.failed_attempts, 0);
    assert_eq!(s.lockout_until_ms, 0);
}

#[test]
fn remaining_secs_rounds_up() {
    let s = ThrottleState { failed_attempts: 5, lockout_until_ms: 2_001 };
    assert_eq!(s.remaining_secs(1_000), 2);
}

#[test]
fn sixth_failure_keeps_the_armed_lockout() {
    let mut s = ThrottleState::default();
    for _ in 0..5 {
        s.on_failure(1_000);
    }
    s.on_failure(9_000);
    assert_eq!(s.failed_attempts, 6);
    assert_eq!(s.lockout_until_ms, 31_000);
}

fn sample_mk() -> [u8; 32] {
    let mut mk = [0u8; 32];
    for (i, b) in mk.iter_mut().enumerate() {
        *b = i as u8;
    }
    mk
}

#[test]
fn kek_derivation_is_deterministic() {
    let salt = [7u8; 16];
    let k1 = derive_kek("1357", &salt).unwrap();
    let k2 = derive_kek("1357", &salt).unwrap();
    assert_eq!(k1, k2);
}

#[test]
fn kek_derivation_varies_by_pin() {
    let salt = [7u8; 16];
    let k1 = derive_kek("1357", &salt).unwrap();
    let k2 = derive_kek("1358", &salt).unwrap();
    assert_ne!(k1, k2);
}

#[test]
fn wrap_unwrap_round_trip() {
    let salt = [7u8; 16];
    let kek = derive_kek("1357", &salt).unwrap();
    let mk = sample_mk();
    let blob = wrap_mk(&kek, &mk).unwrap();
    let recovered = unwrap_mk(&kek, &blob).unwrap();
    assert_eq!(recovered, mk);
}

#[test]
fn unwrap_with_wrong_kek_fails_as_wrong_pin() {
    let salt = [7u8; 16];
    let kek_good = derive_kek("1357", &salt).unwrap();
    let kek_bad = derive_kek("1358", &salt).unwrap();
    let blob = wrap_mk(&kek_good, &sample_mk()).unwrap();
    assert!(matches!(unwrap_mk(&kek_bad, &blob), Err(LockError::WrongPin)));
}

#[test]
fn unwrap_tampered_ct_fails() {
    let salt = [7u8; 16];
    let kek = derive_kek("1357", &salt).unwrap();
    let mut blob = wrap_mk(&kek, &sample_mk()).unwrap();
    let mut ct = base64::engine::general_purpose::STANDARD.decode(&blob.ct).unwrap();
    ct[0] ^= 1;
    blob.ct = base64::engine::general_purpose::STANDARD.encode(&ct);
    let res = unwrap_mk(&kek, &blob);
    assert!(matches!(res, Err(LockError::WrongPin)));
}

#[test]
fn unwrap_bad_version_errors() {
    let salt = [7u8; 16];
    let kek = derive_kek("1357", &salt).unwrap();
    let mut blob = wrap_mk(&kek, &sample_mk()).unwrap();
    blob.version = 999;
    assert!(matches!(unwrap_mk(&kek, &blob), Err(LockError::Corrupted(_))));
}

#[test]
fn wrapped_blob_fields_are_base64_of_nonce_and_sealed_key() {
    let kek = [3u8; 32];
    let blob = wrap_mk(&kek, &sample_mk()).unwrap();
    let nonce = base64::engine::general_purpose::STANDARD.decode(&blob.nonce).unwrap();
    let ct = base64::engine::general_purpose::STANDARD.decode(&blob.ct).unwrap();
    assert_eq!(blob.version, 1);
    assert_eq!(nonce.len(), 24);
    assert_eq!(ct.len(), 48);
}

#[test]
fn setup_then_unlock_recovers_master_key() {
    let mut prefs = SecurityPrefs::default();
    let mk = sample_mk();
    let (hb, wb) = setup_pin(&mut prefs, "2468", Some(mk)).unwrap();
    assert!(is_configured(&prefs));
    assert_eq!(prefs.pin_version, 1);
    let out = unlock_with_pin(&mut prefs, "2468", 10_000, Ok(Some(Ok(hb))), Ok(Some(Ok(wb))));
    assert_eq!(out.result.unwrap(), mk);
    assert!(out.save_prefs);
    assert_eq!(prefs.failed_attempts, 0);
}

#[test]
fn setup_requires_unlocked_vault_and_valid_pin() {
    let mut prefs = SecurityPrefs::default();
    assert_eq!(setup_pin(&mut prefs, "2468", None).unwrap_err(), "error.notUnlocked");
    assert_eq!(setup_pin(&mut prefs, "24", Some([0u8; 32])).unwrap_err(), "error.pinMustBe4Digits");
    assert!(!prefs.lock_enabled);
}

#[test]
fn wrong_pin_counts_and_locks_out_on_fifth() {
    let mut prefs = SecurityPrefs::default();
    let (hb, wb) = setup_pin(&mut prefs, "2468", Some(sample_mk())).unwrap();
    for i in 1..=4 {
        let hb2 = PinHashBlob { version: hb.version, salt: hb.salt.clone(), hash: hb.hash.clone() };
        let out = unlock_with_pin(&mut prefs, "1111", 10_000, Ok(Some(Ok(hb2))), Ok(None));
        assert_eq!(out.result.unwrap_err(), "error.pinIncorrect");
        assert!(out.save_prefs);
        assert_eq!(prefs.failed_attempts, i);
    }
    let out = unlock_with_pin(&mut prefs, "1111", 10_000, Ok(Some(Ok(hb))), Ok(Some(Ok(wb))));
    assert_eq!(out.result.unwrap_err(), "error.lockThrottled:30");
    assert_eq!(lockout_remaining_secs(&prefs, 10_000), 30);
    let out = unlock_with_pin(&mut prefs, "2468", 20_000, Ok(None), Ok(None));
    assert_eq!(out.result.unwrap_err(), "error.lockThrottled:20");
    assert!(!out.save_prefs);
}

#[test]
fn unlock_reports_missing_blobs() {
    let mut prefs = SecurityPrefs::default();
    let out = unlock_with_pin(&mut prefs, "2468", 0, Ok(None), Ok(None));
    assert_eq!(out.result.unwrap_err(), "error.notConfigured");
    let out = unlock_with_pin(&mut prefs, "2468", 0, Err("error.secureRead(pin_hash): denied".to_string()), Ok(None));
    assert_eq!(out.result.unwrap_err(), "error.secureRead(pin_hash): denied");
    let out = unlock_with_pin(&mut prefs, "2468", 0, Ok(Some(Err("expected value".to_string()))), Ok(None));
    assert_eq!(out.result.unwrap_err(), "error.secureStoreCorrupted: pin_hash.blob: expected value");
    let (hb, _) = setup_pin(&mut prefs, "2468", Some(sample_mk())).unwrap();
    let out = unlock_with_pin(&mut prefs, "2468", 0, Ok(Some(Ok(hb))), Ok(None));
    assert_eq!(out.result.unwrap_err(), "error.secureStoreCorrupted: mk_pin missing");
}

#[test]
fn disable_checks_pin_then_clears_prefs() {
    let mut prefs = SecurityPrefs::default();
    let (hb, _) = setup_pin(&mut prefs, "2468", Some(sample_mk())).unwrap();
    prefs.bio_enabled = true;
    let hb2 = PinHashBlob { version: hb.version, salt: hb.salt.clone(), hash: hb.hash.clone() };
    assert_eq!(disable(&mut prefs, "1111", Ok(Some(Ok(hb2)))).unwrap_err(), "error.pinIncorrect");
    assert!(prefs.lock_enabled);
    disable(&mut prefs, "2468", Ok(Some(Ok(hb)))).unwrap();
    assert!(!prefs.lock_enabled);
    assert!(!prefs.bio_enabled);
    assert_eq!(prefs.pin_version, 1);
}
