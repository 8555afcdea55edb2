//! Failed-attempt counter and lockout deadline for the app lock screen.
//!
//! Thresholds:
//!   1-4 failures  → no lockout
//!   5, 6…         → 30 seconds
//!   10, 11…       → 5 minutes
//!   15 or more    → 30 minutes
//!
//! A lockout is (re)armed only when the new failure count is a multiple of
//! five; the counter is cumulative until a successful unlock resets it.

use vstd::prelude::*;

verus! {

pub const TIER_1_FAILS: u32 = 5;
pub const TIER_2_FAILS: u32 = 10;
pub const TIER_3_FAILS: u32 = 15;
pub const TIER_1_SECS: i64 = 30;
pub const TIER_2_SECS: i64 = 300;
pub const TIER_3_SECS: i64 = 1800;

/// Longest lockout a single failure can arm, in milliseconds.
pub const MAX_LOCKOUT_MS: i64 = 1_800_000;

#[derive(Clone, Copy, Debug, PartialEq, Eq, Structural)]
pub struct ThrottleState {
    pub failed_attempts: u32,
    /// Unix epoch ms when the current lockout ends. 0 = not locked out.
    pub lockout_until_ms: i64,
}

/// Lockout length (seconds) armed by reaching `n` failed attempts, if any.
pub open spec fn lockout_secs_for(n: u32) -> Option<i64> {
    if n >= TIER_3_FAILS && n % TIER_1_FAILS == 0 {
        Some(TIER_3_SECS)
    } else if n >= TIER_2_FAILS && n % TIER_1_FAILS == 0 {
        Some(TIER_2_SECS)
    } else if n >= TIER_1_FAILS && n % TIER_1_FAILS == 0 {
        Some(TIER_1_SECS)
    } else {
        None
    }
}

/// Whole seconds left until `until_ms`, rounded up; 0 once it has passed.
pub open spec fn remaining_secs_spec(until_ms: int, now_ms: int) -> int {
    if until_ms <= now_ms {
        0
    } else {
        (until_ms - now_ms + 999) / 1000
    }
}

/// State after one more failure at time `now_ms`.
pub open spec fn after_failure(s: ThrottleState, now_ms: i64) -> ThrottleState {
    let n: u32 = if s.failed_attempts == u32::MAX { u32::MAX } else { (s.failed_attempts + 1) as u32 };
    ThrottleState {
        failed_attempts: n,
        lockout_until_ms: match lockout_secs_for(n) {
            Some(secs) => (now_ms + secs * 1000) as i64,
            None => s.lockout_until_ms,
        },
    }
}

impl Default for ThrottleState {
    /// A fresh state: no failures, not locked out.
    fn default() -> (s: Self)
        ensures
            s.failed_attempts == 0,
            s.lockout_until_ms == 0,
    {
        ThrottleState { failed_attempts: 0, lockout_until_ms: 0 }
    }
}

impl ThrottleState {
    /// Seconds remaining in the current lockout. `<=0` means unlocked.
    pub fn remaining_secs(&self, now_ms: i64) -> (r: i64)
        requires
            self.lockout_until_ms <= now_ms || self.lockout_until_ms - now_ms + 999 <= i64::MAX,
        ensures
            r == remaining_secs_spec(self.lockout_until_ms as int, now_ms as int),
    {
        if self.lockout_until_ms <= now_ms {
            0
        } else {
            (self.lockout_until_ms - now_ms + 999) / 1000
        }
    }

    /// Record a failed attempt. Bumps failed_attempts (saturating); if the
    /// new count is on a tier boundary, sets lockout_until to now + tier.
    pub fn on_failure(&mut self, now_ms: i64)
        requires
            lockout_secs_for(after_failure(*old(self), now_ms).failed_attempts) matches Some(secs) ==> now_ms
                + secs * 1000 <= i64::MAX,
        ensures
            *final(self) == after_failure(*old(self), now_ms),
    {
        self.failed_attempts = self.failed_attempts.saturating_add(1);
        let n = self.failed_attempts;
        let dur_secs: Option<i64> = if n >= TIER_3_FAILS && n % TIER_1_FAILS == 0 {
            Some(TIER_3_SECS)
        } else if n >= TIER_2_FAILS && n % TIER_1_FAILS == 0 {
            Some(TIER_2_SECS)
        } else if n >= TIER_1_FAILS && n % TIER_1_FAILS == 0 {
            Some(TIER_1_SECS)
        } else {
            None
        };
        if let Some(secs) = dur_secs {
            self.lockout_until_ms = now_ms + secs * 1000;
        }
    }

    /// Record a success: clear both counters.
    pub fn on_success(&mut self)
        ensures
            final(self).failed_attempts == 0,
            final(self).lockout_until_ms == 0,
    {
        self.failed_attempts = 0;
        self.lockout_until_ms = 0;
    }
}


/// The state after `n` failures at time `now_ms`, starting from `s`.
pub open spec fn repeat_failures(s: ThrottleState, n: nat, now_ms: i64) -> ThrottleState
    decreases n,
{
    if n == 0 {
        s
    } else {
        after_failure(repeat_failures(s, (n - 1) as nat, now_ms), now_ms)
    }
}

/// Lockout seconds of the tier reached at `m` failures (`m` a multiple of five).
pub open spec fn tier_secs(m: int) -> int {
    if m >= 15 {
        1800
    } else if m >= 10 {
        300
    } else if m >= 5 {
        30
    } else {
        0
    }
}

/// Law: `n` consecutive failures from a fresh state at one instant count
/// `n`; from the fifth on, a lockout runs for the tier of the last multiple
/// of five reached (30 s, 5 min, then 30 min from the fifteenth on), and
/// before it none does.
pub proof fn lemma_consecutive_failures(n: nat, now_ms: i64)
    requires
        n <= u32::MAX,
        now_ms <= i64::MAX - MAX_LOCKOUT_MS,
        now_ms >= 0,
    ensures
        ({
            let s = repeat_failures(ThrottleState { failed_attempts: 0, lockout_until_ms: 0 }, n, now_ms);
            &&& s.failed_attempts == n
            &&& s.lockout_until_ms == (if n >= 5 {
                now_ms + tier_secs(n - n % 5) * 1000
            } else {
                0
            })
        }),
    decreases n,
{
    if n > 0 {
        lemma_consecutive_failures((n - 1) as nat, now_ms);
        let m = (n - 1) as nat;
        if n % 5 == 0 {
            assert(n - n % 5 == n);
        } else {
            assert(n - n % 5 == m - m % 5);
        }
    }
}

} // verus!
