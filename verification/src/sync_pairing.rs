//! Pairing from the desktop side: the current S3 configuration and
//! credentials, serialized and sealed under the pairing PIN; and where the
//! credentials are read from (the OS keychain first, the legacy database
//! rows as a fallback).

use vstd::prelude::*;
use vstd::string::StringSliceAdditionalSpecFns;
use crate::json_text::{json_quoted, json_string_literal};
use crate::pairing::{
    decrypt_spec, encrypt_payload, envelope_fields, is_pairing_pin, Envelope, PairVerdict, PairingError,
    MAX_PAYLOAD_BYTES,
};
use crate::questions::{db_error_message, DbError};

verus! {

broadcast use crate::text::group_concat;

/// Why a pairing envelope could not be built.
#[derive(Debug)]
pub enum PairError {
    InvalidPin,
    SyncNotConfigured,
    CredentialsMissing,
    PayloadTooLarge,
    Internal,
    Db(DbError),
}

pub open spec fn pair_error_message(e: PairError) -> Seq<char> {
    match e {
        PairError::InvalidPin => "error.pairingInvalidPin"@,
        PairError::SyncNotConfigured => "error.pairingSyncNotConfigured"@,
        PairError::CredentialsMissing => "error.pairingCredentialsMissing"@,
        PairError::PayloadTooLarge => "error.pairingPayloadTooLarge"@,
        PairError::Internal => "error.pairingInternal"@,
        PairError::Db(d) => db_error_message(d),
    }
}

impl PairError {
    /// The error's text (its `Display`).
    pub fn message(&self) -> (s: String)
        ensures
            s@ == pair_error_message(*self),
    {
        match self {
            PairError::InvalidPin => "error.pairingInvalidPin".to_owned(),
            PairError::SyncNotConfigured => "error.pairingSyncNotConfigured".to_owned(),
            PairError::CredentialsMissing => "error.pairingCredentialsMissing".to_owned(),
            PairError::PayloadTooLarge => "error.pairingPayloadTooLarge".to_owned(),
            PairError::Internal => "error.pairingInternal".to_owned(),
            PairError::Db(d) => d.message(),
        }
    }

    /// The pairing crate's error as seen here: an invalid PIN and an
    /// oversized payload keep their meaning, anything else is internal.
    pub fn from_pairing(e: PairingError) -> (r: PairError)
        ensures
            r == match e {
                PairingError::InvalidPin => PairError::InvalidPin,
                PairingError::PayloadTooLarge { .. } => PairError::PayloadTooLarge,
                _ => PairError::Internal,
            },
    {
        match e {
            PairingError::InvalidPin => PairError::InvalidPin,
            PairingError::PayloadTooLarge { .. } => PairError::PayloadTooLarge,
            _ => PairError::Internal,
        }
    }
}

/// The JSON the envelope seals:
/// `{"version":1,"endpoint":…,"region":…,"bucket":…,"access_key":…,"secret_key":…}`.
pub open spec fn plain_payload(
    endpoint: Seq<char>,
    region: Seq<char>,
    bucket: Seq<char>,
    access_key: Seq<char>,
    secret_key: Seq<char>,
) -> Seq<char> {
    "{\"version\":1,\"endpoint\":"@ + json_quoted(endpoint) + ",\"region\":"@ + json_quoted(region)
        + ",\"bucket\":"@ + json_quoted(bucket) + ",\"access_key\":"@ + json_quoted(access_key)
        + ",\"secret_key\":"@ + json_quoted(secret_key) + "}"@
}

pub fn plain_payload_json(endpoint: &str, region: &str, bucket: &str, access_key: &str, secret_key: &str) -> (s: String)
    ensures
        s@ == plain_payload(endpoint@, region@, bucket@, access_key@, secret_key@),
{
    let mut s = "{\"version\":1,\"endpoint\":".to_owned();
    s.append(json_string_literal(endpoint).as_str());
    s.append(",\"region\":");
    s.append(json_string_literal(region).as_str());
    s.append(",\"bucket\":");
    s.append(json_string_literal(bucket).as_str());
    s.append(",\"access_key\":");
    s.append(json_string_literal(access_key).as_str());
    s.append(",\"secret_key\":");
    s.append(json_string_literal(secret_key).as_str());
    s.append("}");
    s
}

pub open spec fn or_empty(o: Option<String>) -> Seq<char> {
    match o {
        Some(s) => s@,
        None => Seq::<char>::empty(),
    }
}

/// A pairing envelope for the configured S3 sync, sealed under `pin`.
/// The configuration comes as stored (absent values count as empty); the
/// credentials as loaded. Fails without region or bucket, without
/// credentials, with a PIN that is not six digits, or for a payload over
/// the envelope limit.
pub fn build_pairing_envelope(
    endpoint: Option<String>,
    region: Option<String>,
    bucket: Option<String>,
    credentials: Result<Option<(String, String)>, DbError>,
    pin: &str,
) -> (r: Result<Envelope, PairError>)
    ensures
        or_empty(region).len() == 0 || or_empty(bucket).len() == 0 ==> r matches Err(PairError::SyncNotConfigured),
        or_empty(region).len() > 0 && or_empty(bucket).len() > 0 ==> match credentials {
            Err(d) => r == Err::<Envelope, PairError>(PairError::Db(d)),
            Ok(None) => r matches Err(PairError::CredentialsMissing),
            Ok(Some((ak, sk))) => {
                let plain = plain_payload(or_empty(endpoint), or_empty(region), or_empty(bucket), ak@, sk@);
                &&& !is_pairing_pin(pin@) ==> (r matches Err(PairError::InvalidPin))
                &&& is_pairing_pin(pin@) && vstd::utf8::encode_utf8(plain).len() > MAX_PAYLOAD_BYTES ==> (r matches Err(
                    PairError::PayloadTooLarge,
                ))
                &&& is_pairing_pin(pin@) && vstd::utf8::encode_utf8(plain).len() <= MAX_PAYLOAD_BYTES ==> (r matches Ok(env)
                    && decrypt_spec(pin@, pin.spec_bytes(), Some(envelope_fields(env))) == PairVerdict::Plain(
                    vstd::utf8::encode_utf8(plain),
                ))
            },
        },
{
    let endpoint = match endpoint {
        Some(s) => s,
        None => String::new(),
    };
    let region = match region {
        Some(s) => s,
        None => String::new(),
    };
    let bucket = match bucket {
        Some(s) => s,
        None => String::new(),
    };
    if region.as_str().is_empty() || bucket.as_str().is_empty() {
        return Err(PairError::SyncNotConfigured);
    }
    let (access_key, secret_key) = match credentials {
        Err(d) => {
            return Err(PairError::Db(d));
        },
        Ok(None) => {
            return Err(PairError::CredentialsMissing);
        },
        Ok(Some(c)) => c,
    };
    let plain = plain_payload_json(endpoint.as_str(), region.as_str(), bucket.as_str(), access_key.as_str(), secret_key.as_str());
    match encrypt_payload(pin, plain.as_str().as_bytes()) {
        Ok(env) => Ok(env),
        Err(e) => Err(PairError::from_pairing(e)),
    }
}

// ─────────────────────────── credentials ───────────────────────────

/// The credentials sync uses: the keychain's when it holds a pair; else
/// the legacy database rows when both are present and non-empty; else
/// none. A keychain error falls back like an empty keychain.
pub open spec fn chosen_credentials(
    keystore: Result<Option<(String, String)>, String>,
    legacy_access: Option<String>,
    legacy_secret: Option<String>,
) -> Option<(Seq<char>, Seq<char>)> {
    match keystore {
        Ok(Some((a, s))) => Some((a@, s@)),
        _ => if or_empty(legacy_access).len() > 0 && or_empty(legacy_secret).len() > 0 {
            Some((or_empty(legacy_access), or_empty(legacy_secret)))
        } else {
            None
        },
    }
}

pub fn load_credentials(
    keystore: Result<Option<(String, String)>, String>,
    legacy_access: Option<String>,
    legacy_secret: Option<String>,
) -> (r: Option<(String, String)>)
    ensures
        match chosen_credentials(keystore, legacy_access, legacy_secret) {
            Some((a, s)) => r matches Some(p) && p.0@ == a && p.1@ == s,
            None => r is None,
        },
{
    match keystore {
        Ok(Some(c)) => {
            return Some(c);
        },
        _ => {},
    }
    let access_key = match legacy_access {
        Some(v) => {
            if v.as_str().is_empty() {
                return None;
            }
            v
        },
        None => {
            return None;
        },
    };
    let secret_key = match legacy_secret {
        Some(v) => {
            if v.as_str().is_empty() {
                return None;
            }
            v
        },
        None => {
            return None;
        },
    };
    Some((access_key, secret_key))
}

/// What the one-shot migration to the keychain does: copy the legacy pair
/// when the keychain answered and holds nothing and both legacy values are
/// non-empty; nothing otherwise (a keychain error skips the migration).
pub fn migration_copy(
    keystore_probe: Result<Option<(String, String)>, String>,
    legacy_access: Option<String>,
    legacy_secret: Option<String>,
) -> (r: Option<(String, String)>)
    ensures
        match keystore_probe {
            Ok(None) => if or_empty(legacy_access).len() > 0 && or_empty(legacy_secret).len() > 0 {
                r matches Some(p) && p.0@ == or_empty(legacy_access) && p.1@ == or_empty(legacy_secret)
            } else {
                r is None
            },
            _ => r is None,
        },
{
    match keystore_probe {
        Ok(None) => {},
        _ => {
            return None;
        },
    }
    match (legacy_access, legacy_secret) {
        (Some(a), Some(s)) => {
            if a.as_str().is_empty() || s.as_str().is_empty() {
                None
            } else {
                Some((a, s))
            }
        },
        _ => None,
    }
}

} // verus!
