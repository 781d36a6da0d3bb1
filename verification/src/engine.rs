//! The per-key lock engine: one guarded step of the acquire loop, the unlock
//! rules, and the garbage-collection selection.
//!
//! The surrounding process drives these functions while holding the root
//! guard: it loads the store, calls [`lock`], and acts on the outcome —
//! persist and return the key directory, probe the holder's liveness
//! endpoint, or release the guard and sleep before retrying.

use vstd::prelude::*;

use crate::dto::{KeyData, KeyDataV, LockError};
use crate::spec_poll_interval;
use crate::poll_interval;
use crate::store::RootData;

verus! {

/// What a single guarded lock step asks the caller to do next.
#[derive(Debug)]
pub enum LockOutcome {
    /// The key was acquired; the store now holds the new lease. Persist it
    /// and hand the caller its key directory.
    Acquired,
    /// The key's holder registered this liveness endpoint. Probe it: if the
    /// holder is alive, wait for the connection to drop and retry; if it is
    /// dead, remove the stale endpoint artifact and retry with
    /// `holder_known_dead` set.
    ProbeHolder(String),
    /// The key is inside its lease window with no endpoint to probe. Release
    /// the guard, sleep this many milliseconds, and retry.
    Wait(u64),
}

/// A lock attempt at `now` succeeds against the current record `g` exactly
/// when the key is free: absent, past its lease with no liveness endpoint to
/// consult, or held by a process that was observed dead.
pub open spec fn spec_acquirable(g: Option<KeyDataV>, now: u64, holder_known_dead: bool) -> bool {
    match g {
        None => true,
        Some(v) => holder_known_dead || (v.socket_path is None && !v.spec_is_timelocked(now)),
    }
}

/// The record a successful acquisition writes: a lease of `timeout_secs`
/// seconds starting at `now`, under the caller's identifier and endpoint.
pub open spec fn spec_acquired_record(
    lock_id: Seq<char>,
    timeout_secs: u64,
    socket_path: Option<Seq<char>>,
    now: u64,
) -> KeyDataV {
    KeyDataV {
        locked_until: (now + timeout_secs * 1000) as u64,
        lock_id: lock_id,
        last_lock: now,
        socket_path: socket_path,
    }
}

/// One guarded step of the acquire loop for `key`.
///
/// `holder_known_dead` is set by the caller after a probe of the key's
/// registered endpoint failed: the previous holder's process is gone, so the
/// key is stolen at once, however much lease time remained.
pub fn lock(
    data: &mut RootData,
    key: &String,
    lock_id: &str,
    timeout_secs: u64,
    socket_path: Option<String>,
    now: u64,
    holder_known_dead: bool,
) -> (r: Result<LockOutcome, LockError>)
    requires
        old(data).wf(),
    ensures
        final(data).wf(),
        (r == Ok::<LockOutcome, LockError>(LockOutcome::Acquired)) <==> (spec_acquirable(
            old(data).spec_lookup(key@),
            now,
            holder_known_dead,
        ) && now + timeout_secs * 1000 <= u64::MAX),
        (r is Err) <==> (spec_acquirable(old(data).spec_lookup(key@), now, holder_known_dead) && now
            + timeout_secs * 1000 > u64::MAX),
        match r {
            Ok(LockOutcome::Acquired) => final(data).spec_lookup(key@) == Some(
                spec_acquired_record(
                    lock_id@,
                    timeout_secs,
                    (match socket_path {
                        Some(ref s) => Some(s@),
                        None => None,
                    }),
                    now,
                ),
            ) && (forall|k: Seq<char>|
                k != key@ ==> final(data).spec_lookup(k) == old(data).spec_lookup(k)),
            Ok(LockOutcome::ProbeHolder(s)) => final(data).keys@ == old(data).keys@ && !holder_known_dead
                && (old(data).spec_lookup(key@) matches Some(v) && v.socket_path == Some(s@)),
            Ok(LockOutcome::Wait(d)) => final(data).keys@ == old(data).keys@ && !holder_known_dead
                && (old(data).spec_lookup(key@) matches Some(v) && v.socket_path is None
                && v.spec_is_timelocked(now) && d == spec_poll_interval(v.spec_expires_in(now))),
            Err(e) => final(data).keys@ == old(data).keys@ && e == LockError::TimeoutOverflow,
        },
{
    let current: Option<(Option<String>, u64)> = match data.get(key) {
        None => None,
        Some(kd) => Some(
            (
                (match &kd.socket_path {
                    Some(s) => Some(s.clone()),
                    None => None,
                }),
                kd.locked_until,
            ),
        ),
    };
    match current {
        None => {
            let mut kd = KeyData::new(now);
            match kd.lock(now, lock_id, timeout_secs, socket_path) {
                Ok(()) => {
                    data.upsert(key.clone(), kd);
                    Ok(LockOutcome::Acquired)
                },
                Err(e) => Err(e),
            }
        },
        Some((prev_socket, locked_until)) => {
            match prev_socket {
                Some(sock) if !holder_known_dead => Ok(LockOutcome::ProbeHolder(sock)),
                _ => {
                    if holder_known_dead || !(now < locked_until) {
                        // Steal: the previous holder is dead or its lease ran
                        // out; the record is rewritten from scratch.
                        let mut kd = KeyData::new(now);
                        match kd.lock(now, lock_id, timeout_secs, socket_path) {
                            Ok(()) => {
                                data.upsert(key.clone(), kd);
                                Ok(LockOutcome::Acquired)
                            },
                            Err(e) => Err(e),
                        }
                    } else {
                        let expires_in = locked_until - now;
                        Ok(LockOutcome::Wait(poll_interval(expires_in)))
                    }
                },
            }
        },
    }
}

/// Why an unlock request was rejected.
#[derive(Debug)]
pub enum UnlockError {
    /// The key has no record in the store.
    KeyNotFound,
    /// The supplied lock identifier is not the record's current holder:
    /// only the declared holder may release a key.
    LockIdMismatch,
}

/// Release `key`: end its lease at `now`. Only the holder named by the
/// record may do so. On success the result says whether the lease had
/// already run out on its own (the caller may warn; it is not an error).
pub fn unlock(data: &mut RootData, key: &String, lock_id: &String, now: u64) -> (r: Result<
    bool,
    UnlockError,
>)
    requires
        old(data).wf(),
    ensures
        final(data).wf(),
        match r {
            Ok(was_expired) => (old(data).spec_lookup(key@) matches Some(v) && v.lock_id == lock_id@
                && was_expired == !v.spec_is_timelocked(now) && final(data).spec_lookup(key@)
                == Some(KeyDataV { locked_until: now, ..v })) && (forall|k: Seq<char>|
                k != key@ ==> final(data).spec_lookup(k) == old(data).spec_lookup(k)),
            Err(UnlockError::KeyNotFound) => final(data).keys@ == old(data).keys@ && old(
                data,
            ).spec_lookup(key@) is None,
            Err(UnlockError::LockIdMismatch) => final(data).keys@ == old(data).keys@ && (old(
                data,
            ).spec_lookup(key@) matches Some(v) && v.lock_id != lock_id@),
        },
{
    let current: Option<KeyData> = match data.get(key) {
        None => None,
        Some(kd) => Some(
            KeyData {
                locked_until: kd.locked_until,
                lock_id: kd.lock_id.clone(),
                last_lock: kd.last_lock,
                socket_path: (match &kd.socket_path {
                    Some(s) => Some(s.clone()),
                    None => None,
                }),
            },
        ),
    };
    match current {
        None => Err(UnlockError::KeyNotFound),
        Some(mut kd) => {
            if !(kd.lock_id == *lock_id) {
                return Err(UnlockError::LockIdMismatch);
            }
            let was_expired = !kd.is_timelocked(now);
            kd.unlock(now);
            data.upsert(key.clone(), kd);
            Ok(was_expired)
        },
    }
}

/// A record is garbage at `now` with cutoff `deadline` when its lease has run
/// out (liveness endpoints are not consulted by GC) and its last acquisition
/// lies before the cutoff.
pub open spec fn gc_eligible(v: KeyDataV, now: u64, deadline: u64) -> bool {
    !v.spec_is_timelocked(now) && v.spec_is_last_used_before(deadline)
}

/// The GC cutoff: `max_age_seconds` before `now`. Ages that reach outside
/// the timestamp range are rejected before any state is touched.
pub fn gc_deadline(now: u64, max_age_seconds: u64) -> (r: Result<u64, LockError>)
    ensures
        (r is Ok) <==> max_age_seconds * 1000 <= now,
        r matches Ok(d) ==> d == now - max_age_seconds * 1000,
        r is Err ==> (r == Err::<u64, LockError>(LockError::TimeoutOverflow)),
{
    let age_ms = match max_age_seconds.checked_mul(1000) {
        Some(m) => m,
        None => {
            return Err(LockError::TimeoutOverflow);
        },
    };
    match now.checked_sub(age_ms) {
        Some(d) => Ok(d),
        None => Err(LockError::TimeoutOverflow),
    }
}

/// The keys a sweep at `now` with cutoff `deadline` must delete: exactly
/// those whose record is garbage.
pub fn gc_plan(data: &RootData, now: u64, deadline: u64) -> (r: Vec<String>)
    requires
        data.wf(),
    ensures
        forall|i: int|
            0 <= i < r@.len() ==> (#[trigger] data.spec_lookup(r@[i]@) matches Some(v)
                && gc_eligible(v, now, deadline)),
        forall|k: Seq<char>|
            (#[trigger] data.spec_lookup(k) matches Some(v) && gc_eligible(v, now, deadline))
                ==> (exists|i: int| 0 <= i < r@.len() && r@[i]@ == k),
{
    let n = data.keys.len();
    let mut r: Vec<String> = Vec::new();
    let mut i: usize = 0;
    while i < n
        invariant
            data.wf(),
            n == data.keys@.len(),
            i <= n,
            forall|j: int|
                0 <= j < r@.len() ==> (#[trigger] data.spec_lookup(r@[j]@) matches Some(v)
                    && gc_eligible(v, now, deadline)),
            forall|idx: int|
                0 <= idx < i && gc_eligible(data.keys@[idx].1@, now, deadline) ==> (exists|j: int|
                    0 <= j < r@.len() && r@[j]@ == data.keys@[idx].0@),
        decreases n - i,
    {
        let entry = &data.keys[i];
        proof {
            crate::store::lemma_sorted_unique(data.keys@);
            crate::store::lemma_spec_get_first_match(data.keys@, entry.0@, i as int);
        }
        if !entry.1.is_timelocked(now) && entry.1.is_last_used_before(deadline) {
            let ghost r_old = r@;
            r.push(entry.0.clone());
            proof {
                assert(r@[r@.len() - 1]@ == data.keys@[i as int].0@);
                assert forall|idx: int|
                    0 <= idx < i + 1 && gc_eligible(data.keys@[idx].1@, now, deadline) implies (
                exists|j: int| 0 <= j < r@.len() && r@[j]@ == data.keys@[idx].0@) by {
                    if idx < i {
                        let j = choose|j: int| 0 <= j < r_old.len() && r_old[j]@
                            == data.keys@[idx].0@;
                        assert(r@[j]@ == data.keys@[idx].0@);
                    } else {
                        assert(r@[r@.len() - 1]@ == data.keys@[idx].0@);
                    }
                }
            }
        }
        i += 1;
    }
    proof {
        assert forall|k: Seq<char>|
            (#[trigger] data.spec_lookup(k) matches Some(v) && gc_eligible(
                v,
                now,
                deadline,
            )) implies (exists|j: int| 0 <= j < r@.len() && r@[j]@ == k) by {
            crate::store::lemma_spec_get_some(data.keys@, k);
        }
    }
    r
}

/// Mutual exclusion, seen from the store: a lock attempt that has not
/// observed the holder's death can acquire a key only once its lease has run
/// out. While a lease runs (and until an unlock moves its end to the
/// present), every competing attempt is told to probe or wait, never
/// acquired, so no two holders' windows overlap.
pub proof fn lemma_mutual_exclusion(holder: KeyDataV, now: u64)
    ensures
        spec_acquirable(Some(holder), now, false) ==> !holder.spec_is_timelocked(now),
{
}

/// Mutual exclusion between two concrete acquisitions: after a lock of
/// `timeout_secs` seconds taken at `t1` with no liveness endpoint, every
/// attempt on the resulting record before the lease runs out — and before
/// any unlock rewrites it — fails to acquire, so the two holders' windows
/// cannot overlap.
pub proof fn lemma_leases_do_not_overlap(
    lock_id: Seq<char>,
    timeout_secs: u64,
    t1: u64,
    t2: u64,
)
    requires
        t1 + timeout_secs * 1000 <= u64::MAX,
        t2 < t1 + timeout_secs * 1000,
    ensures
        !spec_acquirable(Some(spec_acquired_record(lock_id, timeout_secs, None, t1)), t2, false),
{
}

/// Lease monotonicity: under a clock that never runs backwards across
/// successive acquisitions of a key, the record's `last_lock` never
/// decreases: each acquisition stamps it with the present.
pub proof fn lemma_last_lock_monotone(
    prev: KeyDataV,
    lock_id: Seq<char>,
    timeout_secs: u64,
    socket_path: Option<Seq<char>>,
    now: u64,
)
    requires
        prev.last_lock <= now,
    ensures
        spec_acquired_record(lock_id, timeout_secs, socket_path, now).last_lock >= prev.last_lock,
{
}

/// Liveness reclaim: once a waiter has observed the holder dead (its
/// registered endpoint refused the connection), the key is acquirable at
/// once, however much lease time remains — a crashed holder never makes a
/// waiter sit out the full lease.
pub proof fn lemma_liveness_reclaim(holder: KeyDataV, now: u64)
    ensures
        spec_acquirable(Some(holder), now, true),
{
}

/// Garbage-collection safety: a store that a sweep has cleaned — every key
/// the plan listed removed, every other key untouched — retains no record
/// that was garbage at sweep time: whatever last was locked before the
/// cutoff and out of lease is gone.
pub proof fn lemma_gc_safety(
    before: RootData,
    after: RootData,
    planned: Seq<Seq<char>>,
    now: u64,
    deadline: u64,
)
    requires
        forall|k: Seq<char>|
            (#[trigger] before.spec_lookup(k) matches Some(v) && gc_eligible(v, now, deadline))
                ==> planned.contains(k),
        forall|k: Seq<char>| planned.contains(k) ==> after.spec_lookup(k) is None,
        forall|k: Seq<char>|
            !planned.contains(k) ==> after.spec_lookup(k) == before.spec_lookup(k),
    ensures
        forall|k: Seq<char>|
            #[trigger] after.spec_lookup(k) matches Some(v) ==> !gc_eligible(v, now, deadline),
{
    assert forall|k: Seq<char>| (#[trigger] after.spec_lookup(k)) is Some implies !gc_eligible(
        after.spec_lookup(k)->Some_0,
        now,
        deadline,
    ) by {
        if planned.contains(k) {
            assert(after.spec_lookup(k) is None);
        } else {
            assert(after.spec_lookup(k) == before.spec_lookup(k));
        }
    }
}

} // verus!
