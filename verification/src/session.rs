//! Session guard: the authentication state machine.
//!
//! A session is `Locked` (no key), `Unlocked` (key held, idle-bounded) or
//! locked out (a failed-attempt window is open).  All transitions take the
//! current time as an argument, so every path is verified for every clock
//! value and tests can drive virtual time.
//!
//! The failure counter deliberately keeps climbing across an expired
//! lockout window: only a successful authentication resets it, so a wrong
//! password right after the window re-locks at once.

use vstd::prelude::*;
use crate::error::AuthenticationError;

verus! {

/// Seconds of idleness after which an unlocked session expires.
pub const SESSION_TIMEOUT_SECS: u64 = 300;

/// Seconds a lockout window stays open.
pub const LOCKOUT_SECS: u64 = 300;

/// Consecutive failures that open a lockout window.
pub const MAX_FAILED_ATTEMPTS: u32 = 5;

/// The failure counter after one more failed attempt: it climbs until it
/// saturates at the maximum.
pub open spec fn bumped_attempts(failed: u32) -> u32 {
    if failed < MAX_FAILED_ATTEMPTS {
        (failed + 1) as u32
    } else {
        failed
    }
}

/// The lockout window after a failure at `now` with `failed` failures
/// already on record: from the fifth consecutive failure on, a fresh
/// window opens; below that, the window is unchanged.
pub open spec fn window_after_failure(failed: u32, locked_until: Option<u64>, now: u64) -> Option<
    u64,
> {
    if failed + 1 >= MAX_FAILED_ATTEMPTS {
        Some((now + LOCKOUT_SECS) as u64)
    } else {
        locked_until
    }
}

/// The mutable per-process session: the derived key is present exactly
/// while the session is unlocked.
pub struct SessionState {
    key: Option<Vec<u8>>,
    last_activity: u64,
    failed_attempts: u32,
    locked_until: Option<u64>,
}

impl SessionState {
    /// The key, as the contracts speak of it.
    pub closed spec fn key_view(self) -> Option<Seq<u8>> {
        match self.key {
            Some(k) => Some(k@),
            None => None,
        }
    }

    /// The instant of the last authenticated activity.
    pub closed spec fn last_activity_spec(self) -> u64 {
        self.last_activity
    }

    /// How many consecutive authentication failures are on record.
    pub closed spec fn failed_attempts_spec(self) -> u32 {
        self.failed_attempts
    }

    /// The instant an open lockout window ends, if one is open.
    pub closed spec fn locked_until_spec(self) -> Option<u64> {
        self.locked_until
    }

    /// A key is held.
    pub open spec fn unlocked(self) -> bool {
        self.key_view() is Some
    }

    /// Every held key has the derived-key length.
    pub open spec fn wf(self) -> bool {
        self.key_view() matches Some(k) ==> k.len() == 32
    }

    /// A lockout window is open at `now`.
    pub open spec fn lockout_active(self, now: u64) -> bool {
        match self.locked_until_spec() {
            Some(t) => now < t,
            None => false,
        }
    }

    /// The session has sat idle past the timeout at `now`.
    pub open spec fn idle_expired(self, now: u64) -> bool {
        now > self.last_activity_spec() && now - self.last_activity_spec()
            > SESSION_TIMEOUT_SECS
    }

    /// Unlocked and not idle-expired: authenticated at `now`.
    pub open spec fn authenticated(self, now: u64) -> bool {
        self.unlocked() && !self.idle_expired(now)
    }

    /// A fresh session: locked, no failures on record.
    pub fn new() -> (r: SessionState)
        ensures
            r.key_view() is None,
            r.failed_attempts_spec() == 0,
            r.locked_until_spec() is None,
            r.last_activity_spec() == 0,
            r.wf(),
    {
        SessionState { key: None, last_activity: 0, failed_attempts: 0, locked_until: None }
    }

    /// Pure read: is the session authenticated at `now`?  Mutates nothing.
    pub fn is_authenticated(&self, now: u64) -> (r: bool)
        ensures
            r == self.authenticated(now),
    {
        match &self.key {
            Some(_) => !(now > self.last_activity && now - self.last_activity
                > SESSION_TIMEOUT_SECS),
            None => false,
        }
    }

    /// The end of the lockout window, when one is open at `now`.
    pub fn lockout_until(&self, now: u64) -> (r: Option<u64>)
        ensures
            r matches Some(t) ==> self.lockout_active(now) && self.locked_until_spec() == Some(
                t,
            ),
            r is None ==> !self.lockout_active(now),
    {
        match &self.locked_until {
            Some(t) => if now < *t {
                Some(*t)
            } else {
                None
            },
            None => None,
        }
    }

    /// Record one authentication failure: the counter climbs, and from the
    /// fifth consecutive failure on, a lockout window opens at `now`.
    pub fn record_failure(&mut self, now: u64)
        requires
            now + LOCKOUT_SECS <= u64::MAX,
        ensures
            final(self).key_view() is None,
            final(self).last_activity_spec() == old(self).last_activity_spec(),
            final(self).failed_attempts_spec() == bumped_attempts(
                old(self).failed_attempts_spec(),
            ),
            final(self).locked_until_spec() == window_after_failure(
                old(self).failed_attempts_spec(),
                old(self).locked_until_spec(),
                now,
            ),
            final(self).wf(),
    {
        self.zeroize_key();
        if self.failed_attempts < MAX_FAILED_ATTEMPTS {
            self.failed_attempts = self.failed_attempts + 1;
        }
        if self.failed_attempts >= MAX_FAILED_ATTEMPTS {
            self.locked_until = Some(now + LOCKOUT_SECS);
        }
    }

    /// Store a fresh key: the session is unlocked, the failure counter
    /// resets to zero and any lockout window closes.
    pub fn unlock(&mut self, key: Vec<u8>, now: u64)
        requires
            key@.len() == 32,
        ensures
            final(self).key_view() == Some(key@),
            final(self).last_activity_spec() == now,
            final(self).failed_attempts_spec() == 0,
            final(self).locked_until_spec() is None,
            final(self).wf(),
    {
        self.zeroize_key();
        self.key = Some(key);
        self.last_activity = now;
        self.failed_attempts = 0;
        self.locked_until = None;
    }

    /// Overwrite the held key with zeros, then drop it.
    fn zeroize_key(&mut self)
        ensures
            final(self).key_view() is None,
            final(self).last_activity_spec() == old(self).last_activity_spec(),
            final(self).failed_attempts_spec() == old(self).failed_attempts_spec(),
            final(self).locked_until_spec() == old(self).locked_until_spec(),
            final(self).wf(),
    {
        match &mut self.key {
            Some(k) => {
                let n = k.len();
                let mut i: usize = 0;
                while i < n
                    invariant
                        i <= n == k@.len(),
                    decreases n - i,
                {
                    k.set(i, 0);
                    i = i + 1;
                }
            },
            None => {},
        }
        self.key = None;
    }

    /// Explicitly lock the session, zeroing the key first.
    pub fn lock(&mut self)
        ensures
            final(self).key_view() is None,
            final(self).last_activity_spec() == old(self).last_activity_spec(),
            final(self).failed_attempts_spec() == old(self).failed_attempts_spec(),
            final(self).locked_until_spec() == old(self).locked_until_spec(),
            final(self).wf(),
    {
        self.zeroize_key();
    }

    /// Gate one authenticated operation at `now`: refuse while a lockout
    /// window is open; lock and refuse after idle expiry; otherwise
    /// refresh the activity stamp and hand out a copy of the key.
    pub fn begin_operation(&mut self, now: u64) -> (r: Result<Vec<u8>, AuthenticationError>)
        requires
            old(self).wf(),
        ensures
            final(self).wf(),
            old(self).lockout_active(now) ==> r == Err::<Vec<u8>, AuthenticationError>(
                AuthenticationError::Locked(old(self).locked_until_spec()->Some_0),
            ) && *final(self) == *old(self),
            !old(self).lockout_active(now) && !old(self).authenticated(now) ==> r == Err::<
                Vec<u8>,
                AuthenticationError,
            >(AuthenticationError::NotAuthenticated) && final(self).key_view() is None
                && final(self).failed_attempts_spec() == old(self).failed_attempts_spec()
                && final(self).locked_until_spec() == old(self).locked_until_spec(),
            r matches Ok(k) ==> k@.len() == 32,
            !old(self).lockout_active(now) && old(self).authenticated(now) ==> (r matches Ok(k)
                && Some(k@) == old(self).key_view() && final(self).key_view() == old(self).key_view() && final(self).last_activity_spec() == now && final(self).failed_attempts_spec() == old(self).failed_attempts_spec() && final(self).locked_until_spec() == old(self).locked_until_spec()),
    {
        match &self.locked_until {
            Some(t) => {
                if now < *t {
                    return Err(AuthenticationError::Locked(*t));
                }
            },
            None => {},
        }
        let expired = match &self.key {
            Some(_) => now > self.last_activity && now - self.last_activity
                > SESSION_TIMEOUT_SECS,
            None => true,
        };
        if expired {
            self.zeroize_key();
            return Err(AuthenticationError::NotAuthenticated);
        }
        match &self.key {
            Some(k) => {
                let copy = k.clone();
                assert(copy@ == k@);
                self.last_activity = now;
                Ok(copy)
            },
            None => Err(AuthenticationError::NotAuthenticated),
        }
    }
}

/// Lockout law: from a clean record, five consecutive failures (the
/// last at `t5`) drive the counter to the maximum and open a window
/// ending at `t5 + LOCKOUT_SECS`; any attempt strictly before that
/// instant — with the correct password or not — finds the lockout
/// active, and once it has elapsed it does not.  A successful
/// authentication then resets the counter to zero and closes the window
/// ([`SessionState::unlock`]).
pub proof fn lemma_lockout(t1: u64, t2: u64, t3: u64, t4: u64, t5: u64, t6: u64)
    requires
        t5 + LOCKOUT_SECS <= u64::MAX,
    ensures
        ({
            let f1 = bumped_attempts(0);
            let w1 = window_after_failure(0, None, t1);
            let f2 = bumped_attempts(f1);
            let w2 = window_after_failure(f1, w1, t2);
            let f3 = bumped_attempts(f2);
            let w3 = window_after_failure(f2, w2, t3);
            let f4 = bumped_attempts(f3);
            let w4 = window_after_failure(f3, w3, t4);
            let f5 = bumped_attempts(f4);
            let w5 = window_after_failure(f4, w4, t5);
            &&& f5 == MAX_FAILED_ATTEMPTS
            &&& w5 == Some((t5 + LOCKOUT_SECS) as u64)
            &&& (t6 < t5 + LOCKOUT_SECS ==> (w5 matches Some(t) && t6 < t))
            &&& (t6 >= t5 + LOCKOUT_SECS ==> !(w5 matches Some(t) && t6 < t))
        }),
{
}

/// Idle-expiry law: a session unlocked with its last activity at
/// `last_activity` is no longer authenticated at any instant more than
/// `SESSION_TIMEOUT_SECS` later, even though no operation intervened.
pub proof fn lemma_idle_expiry(s: SessionState, now: u64)
    requires
        s.unlocked(),
        now > s.last_activity_spec() + SESSION_TIMEOUT_SECS,
    ensures
        !s.authenticated(now),
{
}

} // verus!
