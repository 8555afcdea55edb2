//! The master key in the operating system's keychain (service `shibei`,
//! account `encryption-master-key`), through the `keyring` crate.

use vstd::prelude::*;
use crate::decimal::decimal;
use crate::text::{concat, u64_to_string};

verus! {

#[verifier::external_type_specification]
#[verifier::external_body]
pub struct ExKeyringError(keyring::Error);

/// A failed keychain operation: whether the entry was missing, and the
/// keychain's own description of the failure.
pub enum KeyringFault {
    NoEntry(String),
    Other(String),
}

pub open spec fn fault_text(f: KeyringFault) -> Seq<char> {
    match f {
        KeyringFault::NoEntry(t) => t@,
        KeyringFault::Other(t) => t@,
    }
}

/// `keyring::Error` told apart: `NoEntry` or any other, each with its
/// `Display` text. Nothing is claimed about the text.
#[verifier::external_body]
fn keyring_fault(e: keyring::Error) -> (f: KeyringFault) {
    match e {
        keyring::Error::NoEntry => KeyringFault::NoEntry(e.to_string()),
        other => KeyringFault::Other(other.to_string()),
    }
}

/// What was handed to the keychain: service, account and (for a store)
/// the secret.
pub type Sent = (Seq<char>, Seq<char>, Seq<u8>);

/// `keyring::Entry::new(service, user)` then `set_secret(secret)` on it.
/// The outer result is the entry's creation, the inner the store. Both
/// depend on the platform's credential store, so nothing is claimed about
/// them; the ghost value records the service, account and secret handed to
/// the calls.
#[verifier::external_body]
fn keyring_store(service: &str, user: &str, secret: &[u8]) -> (r: (Result<Result<(), KeyringFault>, KeyringFault>, Ghost<Sent>))
    ensures
        r.1@ == (service@, user@, secret@),
{
    let sent = Ghost((service@, user@, secret@));
    match keyring::Entry::new(service, user) {
        Ok(entry) => (Ok(entry.set_secret(secret).map_err(keyring_fault)), sent),
        Err(e) => (Err(keyring_fault(e)), sent),
    }
}

/// `keyring::Entry::new(service, user)` then `get_secret()` on it. Nothing
/// is claimed about the outcomes; the ghost value records the service and
/// account handed to the calls.
#[verifier::external_body]
fn keyring_load(service: &str, user: &str) -> (r: (Result<Result<Vec<u8>, KeyringFault>, KeyringFault>, Ghost<Sent>))
    ensures
        r.1@ == (service@, user@, Seq::<u8>::empty()),
{
    let sent = Ghost((service@, user@, Seq::<u8>::empty()));
    match keyring::Entry::new(service, user) {
        Ok(entry) => (Ok(entry.get_secret().map_err(keyring_fault)), sent),
        Err(e) => (Err(keyring_fault(e)), sent),
    }
}

/// `keyring::Entry::new(service, user)` then `delete_credential()` on it.
/// Nothing is claimed about the outcomes; the ghost value records the
/// service and account handed to the calls.
#[verifier::external_body]
fn keyring_remove(service: &str, user: &str) -> (r: (Result<Result<(), KeyringFault>, KeyringFault>, Ghost<Sent>))
    ensures
        r.1@ == (service@, user@, Seq::<u8>::empty()),
{
    let sent = Ghost((service@, user@, Seq::<u8>::empty()));
    match keyring::Entry::new(service, user) {
        Ok(entry) => (Ok(entry.delete_credential().map_err(keyring_fault)), sent),
        Err(e) => (Err(keyring_fault(e)), sent),
    }
}

/// The keychain service and account that hold the master key.
pub open spec fn keychain_service() -> Seq<char> {
    "shibei"@
}

pub open spec fn keychain_account() -> Seq<char> {
    "encryption-master-key"@
}

#[derive(Debug)]
pub enum KeystoreError {
    NotFound,
    PlatformError(String),
    InvalidFormat(String),
}

pub open spec fn keystore_error_message(e: KeystoreError) -> Seq<char> {
    match e {
        KeystoreError::NotFound => "key not found in keychain"@,
        KeystoreError::PlatformError(m) => "keychain platform error: "@ + m@,
        KeystoreError::InvalidFormat(m) => "invalid key format: "@ + m@,
    }
}

impl KeystoreError {
    /// The error's text (its `Display`).
    pub fn message(&self) -> (s: String)
        ensures
            s@ == keystore_error_message(*self),
    {
        match self {
            KeystoreError::NotFound => "key not found in keychain".to_owned(),
            KeystoreError::PlatformError(m) => concat("keychain platform error: ", m.as_str()),
            KeystoreError::InvalidFormat(m) => concat("invalid key format: ", m.as_str()),
        }
    }
}

fn platform(f: KeyringFault) -> (e: KeystoreError)
    ensures
        e matches KeystoreError::PlatformError(m) && m@ == fault_text(f),
{
    match f {
        KeyringFault::NoEntry(t) => KeystoreError::PlatformError(t),
        KeyringFault::Other(t) => KeystoreError::PlatformError(t),
    }
}

/// Store the 32-byte master key in the keychain under the service
/// `shibei` and the account `encryption-master-key`. Every failure is a
/// platform error carrying the keychain's text. The second value records
/// what was handed to the keychain.
pub fn save_master_key(mk: &[u8; 32]) -> (r: (Result<(), KeystoreError>, Ghost<Sent>))
    ensures
        r.1@ == (keychain_service(), keychain_account(), mk@),
        r.0 is Err ==> r.0 matches Err(KeystoreError::PlatformError(_)),
{
    let (outcome, sent) = keyring_store("shibei", "encryption-master-key", mk);
    let r = match outcome {
        Err(f) => Err(platform(f)),
        Ok(Err(f)) => Err(platform(f)),
        Ok(Ok(())) => Ok(()),
    };
    (r, sent)
}

/// What loading the master key concludes from what the keychain returned:
/// a 32-byte secret is the key, another length is malformed, no entry means
/// no key, anything else is a platform error.
pub fn master_key_from_secret(secret: Result<Vec<u8>, KeyringFault>) -> (r: Result<Option<[u8; 32]>, KeystoreError>)
    ensures
        match secret {
            Ok(v) => if v@.len() == 32 {
                r matches Ok(Some(k)) && k@ == v@
            } else {
                r matches Err(KeystoreError::InvalidFormat(m)) && m@ == "expected 32 bytes, got "@ + decimal(
                    v@.len(),
                )
            },
            Err(KeyringFault::NoEntry(_)) => r matches Ok(None),
            Err(KeyringFault::Other(t)) => r matches Err(KeystoreError::PlatformError(m)) && m@ == t@,
        },
{
    match secret {
        Ok(v) => {
            if v.len() != 32 {
                let n = u64_to_string(v.len() as u64);
                return Err(KeystoreError::InvalidFormat(concat("expected 32 bytes, got ", n.as_str())));
            }
            let mut k = [0u8; 32];
            let mut i: usize = 0;
            while i < 32
                invariant
                    0 <= i <= 32,
                    v@.len() == 32,
                    forall|j: int| 0 <= j < i ==> k@[j] == v@[j],
                decreases 32 - i,
            {
                k[i] = v[i];
                i = i + 1;
            }
            assert(k@ =~= v@);
            Ok(Some(k))
        },
        Err(KeyringFault::NoEntry(_)) => Ok(None),
        Err(KeyringFault::Other(t)) => Err(KeystoreError::PlatformError(t)),
    }
}

/// Load the master key from the keychain (service `shibei`, account
/// `encryption-master-key`); `Ok(None)` when there is none. A failure to
/// open the entry is a platform error; what the entry gave back is read by
/// `master_key_from_secret`. The second value records what was handed to
/// the keychain.
pub fn load_master_key() -> (r: (Result<Option<[u8; 32]>, KeystoreError>, Ghost<Sent>))
    ensures
        r.1@ == (keychain_service(), keychain_account(), Seq::<u8>::empty()),
        r.0 is Err ==> (r.0 matches Err(KeystoreError::PlatformError(_)) || r.0 matches Err(
            KeystoreError::InvalidFormat(_),
        )),
        r.0 matches Ok(Some(k)) ==> k@.len() == 32,
        r.0 matches Err(KeystoreError::InvalidFormat(m)) ==> exists|n: nat|
            n != 32 && m@ == "expected 32 bytes, got "@ + #[trigger] decimal(n),
{
    let (outcome, sent) = keyring_load("shibei", "encryption-master-key");
    let r = match outcome {
        Err(f) => Err(platform(f)),
        Ok(secret) => {
            let ghost g = secret;
            let r = master_key_from_secret(secret);
            proof {
                if let Ok(v) = g {
                    if v@.len() != 32 {
                        assert(decimal(v@.len()) == decimal(v@.len()));
                    }
                }
            }
            r
        },
    };
    (r, sent)
}

/// What deleting concludes: a missing entry counts as deleted.
pub fn deletion_result(r: Result<(), KeyringFault>) -> (d: Result<(), KeystoreError>)
    ensures
        match r {
            Ok(()) => d is Ok,
            Err(KeyringFault::NoEntry(_)) => d is Ok,
            Err(KeyringFault::Other(t)) => d matches Err(KeystoreError::PlatformError(m)) && m@ == t@,
        },
{
    match r {
        Ok(()) => Ok(()),
        Err(KeyringFault::NoEntry(_)) => Ok(()),
        Err(KeyringFault::Other(t)) => Err(KeystoreError::PlatformError(t)),
    }
}

/// Delete the master key from the keychain (service `shibei`, account
/// `encryption-master-key`); a missing key counts as deleted, as
/// `deletion_result` states. The second value records what was handed to
/// the keychain.
pub fn delete_master_key() -> (r: (Result<(), KeystoreError>, Ghost<Sent>))
    ensures
        r.1@ == (keychain_service(), keychain_account(), Seq::<u8>::empty()),
        r.0 is Err ==> r.0 matches Err(KeystoreError::PlatformError(_)),
{
    let (outcome, sent) = keyring_remove("shibei", "encryption-master-key");
    let r = match outcome {
        Err(f) => Err(platform(f)),
        Ok(d) => deletion_result(d),
    };
    (r, sent)
}

} // verus!
