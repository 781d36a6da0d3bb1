//! Per-key lock record: the value stored for each cache key in the metadata
//! store.

use vstd::prelude::*;

verus! {

/// Per-key lock record. Timestamps are milliseconds since the Unix epoch.
pub struct KeyData {
    /// The key is considered time-locked exactly while `now < locked_until`.
    pub locked_until: u64,
    /// Identifier supplied by the current (or last) holder; must match on unlock.
    pub lock_id: String,
    /// Time of the most recent successful acquisition; drives GC age checks.
    pub last_lock: u64,
    /// Liveness endpoint registered by the current holder, if any.
    pub socket_path: Option<String>,
}

/// Mathematical value of a [`KeyData`].
pub struct KeyDataV {
    pub locked_until: u64,
    pub lock_id: Seq<char>,
    pub last_lock: u64,
    pub socket_path: Option<Seq<char>>,
}

impl View for KeyData {
    type V = KeyDataV;

    open spec fn view(&self) -> KeyDataV {
        KeyDataV {
            locked_until: self.locked_until,
            lock_id: self.lock_id@,
            last_lock: self.last_lock,
            socket_path: match self.socket_path {
                Some(ref s) => Some(s@),
                None => None,
            },
        }
    }
}

impl KeyData {
    /// Fresh record for a key first seen at `now`: never time-locked at
    /// creation, with an empty holder identifier and no endpoint.
    pub fn new(now: u64) -> (r: Self)
        ensures
            r@.locked_until == now,
            r@.lock_id =~= Seq::<char>::empty(),
            r@.last_lock == now,
            r@.socket_path is None,
            !r@.spec_is_timelocked(now),
    {
        Self {
            locked_until: now,
            lock_id: String::new(),
            last_lock: now,
            socket_path: None,
        }
    }

    /// Whether the key is still inside its lease window at `now`.
    pub fn is_timelocked(&self, now: u64) -> (r: bool)
        ensures
            r == self@.spec_is_timelocked(now),
    {
        now < self.locked_until
    }

    /// Whether the most recent acquisition happened strictly before `deadline`.
    pub fn is_last_used_before(&self, deadline: u64) -> (r: bool)
        ensures
            r == self@.spec_is_last_used_before(deadline),
    {
        self.last_lock < deadline
    }

    /// Remaining lease time at `now`, in milliseconds; zero once expired.
    pub fn expires_in(&self, now: u64) -> (r: u64)
        ensures
            r == self@.spec_expires_in(now),
    {
        if now < self.locked_until {
            self.locked_until - now
        } else {
            0
        }
    }

    /// Take the lock: start a lease of `timeout_secs` seconds at `now`,
    /// record the holder and its optional liveness endpoint. Rejects a lease
    /// whose end does not fit the timestamp range, leaving the record as it
    /// was.
    pub fn lock(
        &mut self,
        now: u64,
        lock_id: &str,
        timeout_secs: u64,
        socket_path: Option<String>,
    ) -> (r: Result<(), LockError>)
        ensures
            r is Ok <==> now + timeout_secs * 1000 <= u64::MAX,
            r is Ok ==> final(self)@ == (KeyDataV {
                locked_until: (now + timeout_secs * 1000) as u64,
                lock_id: lock_id@,
                last_lock: now,
                socket_path: (match socket_path {
                    Some(ref s) => Some(s@),
                    None => None,
                }),
            }),
            r is Err ==> final(self)@ == old(self)@ && (r == Err::<(), LockError>(
                LockError::TimeoutOverflow,
            )),
    {
        let millis = match timeout_secs.checked_mul(1000) {
            Some(m) => m,
            None => {
                return Err(LockError::TimeoutOverflow);
            },
        };
        let until = match now.checked_add(millis) {
            Some(u) => u,
            None => {
                return Err(LockError::TimeoutOverflow);
            },
        };
        self.locked_until = until;
        self.last_lock = now;
        self.lock_id = lock_id.to_owned();
        self.socket_path = socket_path;
        Ok(())
    }

    /// Release the lock: end the lease at `now` (immediate expiry). The
    /// holder identifier, last-lock time and endpoint are kept as they were.
    pub fn unlock(&mut self, now: u64)
        ensures
            final(self)@ == (KeyDataV { locked_until: now, ..old(self)@ }),
            !final(self)@.spec_is_timelocked(now),
    {
        self.locked_until = now;
    }
}

impl KeyDataV {
    /// The key is time-locked at `now` iff the lease has not yet run out.
    pub open spec fn spec_is_timelocked(self, now: u64) -> bool {
        now < self.locked_until
    }

    /// The last acquisition lies strictly before `deadline`.
    pub open spec fn spec_is_last_used_before(self, deadline: u64) -> bool {
        self.last_lock < deadline
    }

    /// Remaining lease time at `now`, in milliseconds; zero once expired.
    pub open spec fn spec_expires_in(self, now: u64) -> u64 {
        if now < self.locked_until {
            (self.locked_until - now) as u64
        } else {
            0
        }
    }
}

/// Failure of a lock acquisition.
#[derive(Debug)]
pub enum LockError {
    /// The requested lease end does not fit the timestamp range.
    TimeoutOverflow,
}

impl LockError {
    /// Human-readable description of the failure.
    pub fn message(&self) -> (r: String)
        ensures
            r@ == "Timeout overflow"@,
    {
        "Timeout overflow".to_owned()
    }
}

} // verus!
