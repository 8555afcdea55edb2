use shibei::pairing::decrypt_payload;
use shibei::questions::DbError;
use shibei::sync_pairing::{build_pairing_envelope, load_credentials, migration_copy, plain_payload_json, PairError};

fn s(x: &str) -> String {
    x.to_string()
}

#[test]
fn fails_when_sync_not_configured() {
    let err = build_pairing_envelope(None, None, None, Ok(None), "123456").unwrap_err();
    assert!(matches!(err, PairError::SyncNotConfigured));
}

#[test]
fn fails_when_credentials_missing() {
    let err = build_pairing_envelope(None, Some(s("us-east-1")), Some(s("my-bucket")), Ok(None), "123456").unwrap_err();
    assert!(matches!(err, PairError::CredentialsMissing));
}

#[test]
fn fails_on_invalid_pin() {
    let creds = Ok(Some((s("AKIA..."), s("SECRET..."))));
    let err = build_pairing_envelope(None, Some(s("us-east-1")), Some(s("my-bucket")), creds, "12345").unwrap_err();
    assert!(matches!(err, PairError::InvalidPin));
}

#[test]
fn round_trip_through_shibei_pairing() {
    let creds = Ok(Some((s("AKIAEXAMPLE"), s("SecretExampleKey"))));
    let env = build_pairing_envelope(
        Some(s("https://s3.example.com")),
        Some(s("us-east-1")),
        Some(s("my-bucket")),
        creds,
        "987654",
    )
    .unwrap();
    let plain = decrypt_payload("987654", Ok(env)).unwrap();
    let decoded: serde_json::Value = serde_json::from_slice(&plain).unwrap();
    assert_eq!(decoded["endpoint"], "https://s3.example.com");
    assert_eq!(decoded["region"], "us-east-1");
    assert_eq!(decoded["bucket"], "my-bucket");
    assert_eq!(decoded["access_key"], "AKIAEXAMPLE");
    assert_eq!(decoded["secret_key"], "SecretExampleKey");
    assert_eq!(decoded["version"], 1);
}

#[test]
fn database_errors_pass_through() {
    let err = build_pairing_envelope(None, Some(s("r")), Some(s("b")), Err(DbError::Sqlite(s("busy"))), "123456")
        .unwrap_err();
    assert_eq!(err.message(), "sqlite error: busy");
    assert_eq!(PairError::SyncNotConfigured.message(), "error.pairingSyncNotConfigured");
}

#[test]
fn plain_payload_is_compact_json_with_escapes() {
    assert_eq!(
        plain_payload_json("", "r", "b\"q", "a", "s"),
        "{\"version\":1,\"endpoint\":\"\",\"region\":\"r\",\"bucket\":\"b\\\"q\",\"access_key\":\"a\",\"secret_key\":\"s\"}"
    );
}

#[test]
fn credential_sources() {
    assert_eq!(load_credentials(Ok(Some((s("k"), s("s")))), Some(s("old")), Some(s("old"))), Some((s("k"), s("s"))));
    assert_eq!(load_credentials(Ok(None), Some(s("a")), Some(s("b"))), Some((s("a"), s("b"))));
    assert_eq!(load_credentials(Err(s("locked")), Some(s("a")), Some(s("b"))), Some((s("a"), s("b"))));
    assert_eq!(load_credentials(Ok(None), Some(s("")), Some(s("b"))), None);
    assert_eq!(load_credentials(Ok(None), Some(s("a")), None), None);
    assert_eq!(migration_copy(Ok(None), Some(s("a")), Some(s("b"))), Some((s("a"), s("b"))));
    assert_eq!(migration_copy(Ok(Some((s("k"), s("s")))), Some(s("a")), Some(s("b"))), None);
    assert_eq!(migration_copy(Err(s("x")), Some(s("a")), Some(s("b"))), None);
    assert_eq!(migration_copy(Ok(None), Some(s("a")), Some(s(""))), None);
}
