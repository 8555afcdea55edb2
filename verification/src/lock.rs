//! The app lock screen: security preferences and the set-up, unlock and
//! disable flows of the PIN.
//!
//! The flows decide; the caller performs the I/O. Each takes what the
//! secure store returned for a blob (a read error, nothing, or the blob's
//! JSON parsed into a value or a parser message) and says what to write
//! back: the preferences (changed in place) and, for set-up, the blobs.

use vstd::prelude::*;
use crate::decimal::signed_zero_padded;
use crate::mobile_lock::{lock_error_message, LockError};
use crate::pin::{hash_pin, is_valid_pin, lemma_pin_bytes, verify_pin, verify_pin_spec, PinHashBlob, PinVerdict};
use crate::text::{concat, i64_to_string};
use crate::throttle::{after_failure, remaining_secs_spec, ThrottleState, MAX_LOCKOUT_MS};
use crate::wrap::{derive_kek, kek_spec, unwrap_mk, unwrap_spec, wrap_mk, UnwrapVerdict, WrappedMkBlob};

verus! {

broadcast use crate::text::group_concat;

/// The lock-screen preferences (`preferences/security.json`).
#[derive(Debug, Clone, Copy, PartialEq, Eq, Structural)]
pub struct SecurityPrefs {
    pub lock_enabled: bool,
    pub bio_enabled: bool,
    pub pin_version: u32,
    pub failed_attempts: u32,
    pub lockout_until_ms: i64,
}

impl Default for SecurityPrefs {
    /// Lock off, biometrics off, no PIN, no failures.
    fn default() -> (p: Self)
        ensures
            p == (SecurityPrefs {
                lock_enabled: false,
                bio_enabled: false,
                pin_version: 0,
                failed_attempts: 0,
                lockout_until_ms: 0,
            }),
    {
        SecurityPrefs {
            lock_enabled: false,
            bio_enabled: false,
            pin_version: 0,
            failed_attempts: 0,
            lockout_until_ms: 0,
        }
    }
}

pub open spec fn throttle_of(p: SecurityPrefs) -> ThrottleState {
    ThrottleState { failed_attempts: p.failed_attempts, lockout_until_ms: p.lockout_until_ms }
}

pub open spec fn with_throttle(p: SecurityPrefs, t: ThrottleState) -> SecurityPrefs {
    SecurityPrefs { failed_attempts: t.failed_attempts, lockout_until_ms: t.lockout_until_ms, ..p }
}

impl SecurityPrefs {
    /// The failure counter and lockout deadline.
    pub fn throttle(&self) -> (t: ThrottleState)
        ensures
            t == throttle_of(*self),
    {
        ThrottleState { failed_attempts: self.failed_attempts, lockout_until_ms: self.lockout_until_ms }
    }

    /// Copies the failure counter and lockout deadline back.
    pub fn merge_throttle(&mut self, t: &ThrottleState)
        ensures
            *final(self) == with_throttle(*old(self), *t),
    {
        self.failed_attempts = t.failed_attempts;
        self.lockout_until_ms = t.lockout_until_ms;
    }
}

/// What the secure store gave back for a blob: `Err` when reading failed,
/// `Ok(None)` when it is absent, otherwise the JSON parse of its bytes
/// (the parser's message on failure).
pub type Stored<T> = Result<Option<Result<T, String>>, String>;

/// The lockout deadline can be compared with `now_ms` without overflow.
pub open spec fn lockout_readable(p: SecurityPrefs, now_ms: i64) -> bool {
    p.lockout_until_ms <= now_ms || p.lockout_until_ms - now_ms + 999 <= i64::MAX
}

pub open spec fn throttled_message(secs: int) -> Seq<char> {
    "error.lockThrottled:"@ + signed_zero_padded(secs, 1)
}

pub open spec fn corrupted_prefix() -> Seq<char> {
    "error.secureStoreCorrupted: "@
}

// ───────────────────────── queries ─────────────────────────

/// Whether the app lock is on.
pub fn is_configured(prefs: &SecurityPrefs) -> (r: bool)
    ensures
        r == prefs.lock_enabled,
{
    prefs.lock_enabled
}

/// Whether biometric unlock is on.
pub fn is_bio_enabled(prefs: &SecurityPrefs) -> (r: bool)
    ensures
        r == prefs.bio_enabled,
{
    prefs.bio_enabled
}

/// Seconds left in the current lockout (0 when not locked out), as the
/// 32-bit integer the NAPI layer returns (truncating like `as i32`).
pub fn lockout_remaining_secs(prefs: &SecurityPrefs, now_ms: i64) -> (r: i32)
    requires
        lockout_readable(*prefs, now_ms),
    ensures
        r == remaining_secs_spec(prefs.lockout_until_ms as int, now_ms as int) as i32,
{
    let t = prefs.throttle();
    let secs = t.remaining_secs(now_ms);
    secs as i32
}

// ───────────────────────── set-up ─────────────────────────

/// Turn the lock on with `pin`, wrapping the unlocked master key `mk`.
/// Returns the PIN hash blob and the wrapped master key for the caller to
/// store; the preferences record the lock as on with no failures.
pub fn setup_pin(prefs: &mut SecurityPrefs, pin: &str, mk: Option<[u8; 32]>) -> (r: Result<
    (PinHashBlob, WrappedMkBlob),
    String,
>)
    ensures
        mk is None ==> (r matches Err(e) && e@ == "error.notUnlocked"@),
        mk is Some && !is_valid_pin(pin@) ==> (r matches Err(e) && e@ == lock_error_message(
            LockError::PinFormat,
        )),
        mk is Some && is_valid_pin(pin@) ==> r is Ok,
        r is Err ==> *final(prefs) == *old(prefs),
        r matches Ok((hb, wb)) ==> ({
            &&& *final(prefs) == (SecurityPrefs {
                lock_enabled: true,
                pin_version: 1,
                failed_attempts: 0,
                lockout_until_ms: 0,
                ..*old(prefs)
            })
            // The hash blob accepts the PIN, and the wrapped key opens under
            // the key that PIN and the blob's salt derive.
            &&& verify_pin_spec(pin@, hb.version, hb.salt@, hb.hash@) matches PinVerdict::Verified(
                salt,
            ) && unwrap_spec(kek_spec(pin@, salt), wb.version, wb.nonce@, wb.ct@)
                == UnwrapVerdict::Unwrapped(mk->0@)
        }),
{
    let key = match mk {
        Some(k) => k,
        None => return Err("error.notUnlocked".to_owned()),
    };
    let (hash_blob, salt) = match hash_pin(pin) {
        Ok(v) => v,
        Err(e) => return Err(e.message()),
    };
    proof {
        lemma_pin_bytes(pin);
    }
    let kek = match derive_kek(pin, &salt) {
        Ok(k) => k,
        Err(e) => return Err(e.message()),
    };
    let mk_blob = match wrap_mk(&kek, &key) {
        Ok(b) => b,
        Err(e) => return Err(e.message()),
    };
    prefs.lock_enabled = true;
    prefs.pin_version = 1;
    prefs.failed_attempts = 0;
    prefs.lockout_until_ms = 0;
    Ok((hash_blob, mk_blob))
}

// ───────────────────────── unlock ─────────────────────────

/// How an unlock attempt ends.
pub enum UnlockVerdict {
    /// Fails with exactly this error text.
    Error(Seq<char>),
    /// Fails with an `error.secureStoreCorrupted: …` text.
    Corrupted,
    /// Succeeds with this master key.
    Unlocked(Seq<u8>),
}

/// Verdict, preferences afterwards and whether they must be saved, for an
/// unlock attempt with `pin` at `now_ms`.
pub open spec fn unlock_spec(
    prefs: SecurityPrefs,
    pin: Seq<char>,
    now_ms: i64,
    pin_hash: Stored<PinHashBlob>,
    mk_pin: Stored<WrappedMkBlob>,
) -> (UnlockVerdict, SecurityPrefs, bool) {
    let rem = remaining_secs_spec(prefs.lockout_until_ms as int, now_ms as int);
    if rem > 0 {
        (UnlockVerdict::Error(throttled_message(rem)), prefs, false)
    } else {
        match pin_hash {
            Err(e) => (UnlockVerdict::Error(e@), prefs, false),
            Ok(None) => (UnlockVerdict::Error("error.notConfigured"@), prefs, false),
            Ok(Some(Err(m))) => if !is_valid_pin(pin) {
                (UnlockVerdict::Error(lock_error_message(LockError::PinFormat)), prefs, false)
            } else {
                (UnlockVerdict::Error(corrupted_prefix() + "pin_hash.blob: "@ + m@), prefs, false)
            },
            Ok(Some(Ok(hb))) => match verify_pin_spec(pin, hb.version, hb.salt@, hb.hash@) {
                PinVerdict::BadFormat => (
                    UnlockVerdict::Error(lock_error_message(LockError::PinFormat)),
                    prefs,
                    false,
                ),
                PinVerdict::Corrupted => (UnlockVerdict::Corrupted, prefs, false),
                PinVerdict::Wrong => {
                    let t = after_failure(throttle_of(prefs), now_ms);
                    let rem2 = remaining_secs_spec(t.lockout_until_ms as int, now_ms as int);
                    (
                        UnlockVerdict::Error(
                            if rem2 > 0 {
                                throttled_message(rem2)
                            } else {
                                lock_error_message(LockError::WrongPin)
                            },
                        ),
                        with_throttle(prefs, t),
                        true,
                    )
                },
                PinVerdict::Verified(salt) => match mk_pin {
                    Err(e) => (UnlockVerdict::Error(e@), prefs, false),
                    Ok(None) => (
                        UnlockVerdict::Error(corrupted_prefix() + "mk_pin missing"@),
                        prefs,
                        false,
                    ),
                    Ok(Some(Err(m))) => (
                        UnlockVerdict::Error(corrupted_prefix() + "mk blob: "@ + m@),
                        prefs,
                        false,
                    ),
                    Ok(Some(Ok(wb))) => match unwrap_spec(
                        kek_spec(pin, salt),
                        wb.version,
                        wb.nonce@,
                        wb.ct@,
                    ) {
                        UnwrapVerdict::Corrupted => (UnlockVerdict::Corrupted, prefs, false),
                        UnwrapVerdict::WrongKey => (
                            UnlockVerdict::Error(lock_error_message(LockError::WrongPin)),
                            prefs,
                            false,
                        ),
                        UnwrapVerdict::Unwrapped(mk) => (
                            UnlockVerdict::Unlocked(mk),
                            SecurityPrefs { failed_attempts: 0, lockout_until_ms: 0, ..prefs },
                            true,
                        ),
                    },
                },
            },
        }
    }
}

/// The result of an unlock attempt and whether the preferences changed and
/// must be written back.
pub struct UnlockOutcome {
    pub result: Result<[u8; 32], String>,
    pub save_prefs: bool,
}

pub open spec fn outcome_matches(o: UnlockOutcome, v: UnlockVerdict) -> bool {
    match v {
        UnlockVerdict::Error(msg) => o.result matches Err(e) && e@ == msg,
        UnlockVerdict::Corrupted => o.result matches Err(e) && corrupted_prefix().is_prefix_of(e@),
        UnlockVerdict::Unlocked(mk) => o.result matches Ok(k) && k@ == mk,
    }
}

fn throttled_error(secs: i64) -> (e: String)
    ensures
        e@ == throttled_message(secs as int),
{
    let digits = i64_to_string(secs);
    concat("error.lockThrottled:", digits.as_str())
}

fn lock_error_text(e: LockError) -> (s: String)
    ensures
        s@ == lock_error_message(e),
        e is Corrupted ==> corrupted_prefix().is_prefix_of(s@),
{
    let s = e.message();
    proof {
        if let LockError::Corrupted(m) = e {
            assert(s@.subrange(0, corrupted_prefix().len() as int) =~= corrupted_prefix());
        }
    }
    s
}

/// Try to unlock with `pin` at `now_ms`: refused while locked out, then
/// the PIN is checked against the stored hash; a wrong PIN counts a failure
/// (possibly arming a lockout), a right one unwraps the master key and
/// clears the failures.
pub fn unlock_with_pin(
    prefs: &mut SecurityPrefs,
    pin: &str,
    now_ms: i64,
    pin_hash: Stored<PinHashBlob>,
    mk_pin: Stored<WrappedMkBlob>,
) -> (out: UnlockOutcome)
    requires
        lockout_readable(*old(prefs), now_ms),
        now_ms <= i64::MAX - MAX_LOCKOUT_MS,
    ensures
        ({
            let (v, p, save) = unlock_spec(*old(prefs), pin@, now_ms, pin_hash, mk_pin);
            &&& outcome_matches(out, v)
            &&& *final(prefs) == p
            &&& out.save_prefs == save
        }),
{
    let mut throttle = prefs.throttle();
    let remaining = throttle.remaining_secs(now_ms);
    if remaining > 0 {
        return UnlockOutcome { result: Err(throttled_error(remaining)), save_prefs: false };
    }
    let hash_blob = match pin_hash {
        Err(e) => return UnlockOutcome { result: Err(e), save_prefs: false },
        Ok(None) => return UnlockOutcome { result: Err("error.notConfigured".to_owned()), save_prefs: false },
        Ok(Some(Err(m))) => {
            if crate::pin::validate_pin(pin).is_err() {
                return UnlockOutcome { result: Err(lock_error_text(LockError::PinFormat)), save_prefs: false };
            }
            let detail = concat("pin_hash.blob: ", m.as_str());
            return UnlockOutcome {
                result: Err(lock_error_text(LockError::Corrupted(detail))),
                save_prefs: false,
            };
        },
        Ok(Some(Ok(b))) => b,
    };
    let salt = match verify_pin(pin, &hash_blob) {
        Ok(s) => s,
        Err(LockError::WrongPin) => {
            throttle.on_failure(now_ms);
            prefs.merge_throttle(&throttle);
            let remaining2 = throttle.remaining_secs(now_ms);
            if remaining2 > 0 {
                return UnlockOutcome { result: Err(throttled_error(remaining2)), save_prefs: true };
            }
            return UnlockOutcome { result: Err(lock_error_text(LockError::WrongPin)), save_prefs: true };
        },
        Err(e) => return UnlockOutcome { result: Err(lock_error_text(e)), save_prefs: false },
    };
    let mk_blob = match mk_pin {
        Err(e) => return UnlockOutcome { result: Err(e), save_prefs: false },
        Ok(None) => {
            return UnlockOutcome {
                result: Err(lock_error_text(LockError::Corrupted("mk_pin missing".to_owned()))),
                save_prefs: false,
            }
        },
        Ok(Some(Err(m))) => {
            let detail = concat("mk blob: ", m.as_str());
            return UnlockOutcome {
                result: Err(lock_error_text(LockError::Corrupted(detail))),
                save_prefs: false,
            };
        },
        Ok(Some(Ok(b))) => b,
    };
    proof {
        lemma_pin_bytes(pin);
    }
    let kek = match derive_kek(pin, &salt) {
        Ok(k) => k,
        Err(e) => return UnlockOutcome { result: Err(lock_error_text(e)), save_prefs: false },
    };
    let mk = match unwrap_mk(&kek, &mk_blob) {
        Ok(k) => k,
        Err(e) => return UnlockOutcome { result: Err(lock_error_text(e)), save_prefs: false },
    };
    throttle.on_success();
    prefs.merge_throttle(&throttle);
    UnlockOutcome { result: Ok(mk), save_prefs: true }
}

// ───────────────────────── disable ─────────────────────────

/// Turn the lock off after checking `pin`. On success the caller deletes
/// the stored blobs and saves the preferences, which now have the lock and
/// biometrics off and no failures.
pub fn disable(prefs: &mut SecurityPrefs, pin: &str, pin_hash: Stored<PinHashBlob>) -> (r: Result<(), String>)
    ensures
        match pin_hash {
            Err(e) => r matches Err(x) && x@ == e@,
            Ok(None) => r matches Err(x) && x@ == "error.notConfigured"@,
            Ok(Some(Err(m))) => r matches Err(x) && x@ == (if is_valid_pin(pin@) {
                corrupted_prefix() + "pin_hash.blob: "@ + m@
            } else {
                lock_error_message(LockError::PinFormat)
            }),
            Ok(Some(Ok(hb))) => match verify_pin_spec(pin@, hb.version, hb.salt@, hb.hash@) {
                PinVerdict::BadFormat => r matches Err(x) && x@ == lock_error_message(LockError::PinFormat),
                PinVerdict::Corrupted => r matches Err(x) && corrupted_prefix().is_prefix_of(x@),
                PinVerdict::Wrong => r matches Err(x) && x@ == lock_error_message(LockError::WrongPin),
                PinVerdict::Verified(_) => r is Ok,
            },
        },
        r is Err ==> *final(prefs) == *old(prefs),
        r is Ok ==> *final(prefs) == (SecurityPrefs {
            lock_enabled: false,
            bio_enabled: false,
            failed_attempts: 0,
            lockout_until_ms: 0,
            ..*old(prefs)
        }),
{
    let hash_blob = match pin_hash {
        Err(e) => return Err(e),
        Ok(None) => return Err("error.notConfigured".to_owned()),
        Ok(Some(Err(m))) => {
            if crate::pin::validate_pin(pin).is_err() {
                return Err(lock_error_text(LockError::PinFormat));
            }
            let detail = concat("pin_hash.blob: ", m.as_str());
            return Err(lock_error_text(LockError::Corrupted(detail)));
        },
        Ok(Some(Ok(b))) => b,
    };
    match verify_pin(pin, &hash_blob) {
        Ok(_) => {},
        Err(e) => return Err(lock_error_text(e)),
    }
    prefs.lock_enabled = false;
    prefs.bio_enabled = false;
    prefs.failed_attempts = 0;
    prefs.lockout_until_ms = 0;
    Ok(())
}

// ───────────────────────── laws ─────────────────────────

/// A PIN just set up unlocks: when the store hands back the two blobs that
/// `setup_pin` produced and no lockout is running, unlocking with the same
/// PIN yields the master key that was wrapped and clears the failures.
pub proof fn lemma_setup_then_unlock(
    prefs: SecurityPrefs,
    pin: Seq<char>,
    now_ms: i64,
    hb: PinHashBlob,
    wb: WrappedMkBlob,
    mk: Seq<u8>,
)
    requires
        prefs.lockout_until_ms <= now_ms,
        verify_pin_spec(pin, hb.version, hb.salt@, hb.hash@) matches PinVerdict::Verified(salt)
            && unwrap_spec(kek_spec(pin, salt), wb.version, wb.nonce@, wb.ct@)
            == UnwrapVerdict::Unwrapped(mk),
    ensures
        unlock_spec(prefs, pin, now_ms, Ok(Some(Ok(hb))), Ok(Some(Ok(wb)))) == (
            UnlockVerdict::Unlocked(mk),
            SecurityPrefs { failed_attempts: 0, lockout_until_ms: 0, ..prefs },
            true,
        ),
{
}

/// A wrong PIN never unlocks and always counts one more failure.
pub proof fn lemma_wrong_pin_counts(
    prefs: SecurityPrefs,
    pin: Seq<char>,
    now_ms: i64,
    hb: PinHashBlob,
    mk_pin: Stored<WrappedMkBlob>,
)
    requires
        prefs.lockout_until_ms <= now_ms,
        verify_pin_spec(pin, hb.version, hb.salt@, hb.hash@) == PinVerdict::Wrong,
    ensures
        ({
            let (v, p, save) = unlock_spec(prefs, pin, now_ms, Ok(Some(Ok(hb))), mk_pin);
            &&& v is Error
            &&& save
            &&& p.failed_attempts == (if prefs.failed_attempts == u32::MAX {
                u32::MAX as int
            } else {
                prefs.failed_attempts + 1
            })
        }),
{
}

} // verus!
