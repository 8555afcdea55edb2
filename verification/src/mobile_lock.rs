//! Lock-screen errors shared by the PIN, key-wrapping and throttle code.
//!
//! Threat model: an attacker holding the `secure/*.blob` files off-device
//! must brute-force the 4-digit PIN against Argon2id (19 MiB, 2 passes);
//! the throttle prevents online brute force.

use vstd::prelude::*;
use crate::decimal::signed_zero_padded;
use crate::text::{concat, i64_to_string};

verus! {

#[derive(Debug)]
pub enum LockError {
    PinFormat,
    WrongPin,
    Corrupted(String),
    Throttled(i64),
}

/// The user-facing error code of each variant.
pub open spec fn lock_error_message(e: LockError) -> Seq<char> {
    match e {
        LockError::PinFormat => "error.pinMustBe4Digits"@,
        LockError::WrongPin => "error.pinIncorrect"@,
        LockError::Corrupted(m) => "error.secureStoreCorrupted: "@ + m@,
        LockError::Throttled(n) => "error.lockThrottled:"@ + signed_zero_padded(n as int, 1),
    }
}

impl LockError {
    /// The error code shown to the user (the `Display` text).
    pub fn message(&self) -> (s: String)
        ensures
            s@ == lock_error_message(*self),
    {
        match self {
            LockError::PinFormat => "error.pinMustBe4Digits".to_owned(),
            LockError::WrongPin => "error.pinIncorrect".to_owned(),
            LockError::Corrupted(m) => concat("error.secureStoreCorrupted: ", m.as_str()),
            LockError::Throttled(n) => {
                let digits = i64_to_string(*n);
                concat("error.lockThrottled:", digits.as_str())
            },
        }
    }
}

} // verus!
