use fs_dir_cache::{
    gc_deadline, gc_plan, lock, poll_interval, unlock, KeyData, LockError, LockOutcome, RootData,
    UnlockError, MAX_POLL_MS, MIN_POLL_MS,
};

fn locked_until(d: &RootData, key: &str) -> u64 {
    d.get(&key.to_owned()).expect("key present").locked_until
}

fn last_lock(d: &RootData, key: &str) -> u64 {
    d.get(&key.to_owned()).expect("key present").last_lock
}

#[test]
fn fresh_key_acquires_immediately() {
    let mut d = RootData::new();
    let r = lock(&mut d, &"a".to_owned(), "id1", 10, None, 1000, false);
    assert!(matches!(r, Ok(LockOutcome::Acquired)));
    let kd = d.get(&"a".to_owned()).expect("record created");
    assert_eq!(kd.locked_until, 11000);
    assert_eq!(kd.last_lock, 1000);
    assert_eq!(kd.lock_id, "id1");
    assert!(kd.socket_path.is_none());
}

#[test]
fn held_key_makes_waiter_poll_briefly() {
    // Two lock calls for key "a" with a 10-second lease: the first creates
    // the record and returns immediately; the second observes it held and is
    // told to wait one bounded poll interval, never the full lease; after
    // the matching unlock the second call acquires at once.
    let mut d = RootData::new();
    assert!(matches!(
        lock(&mut d, &"a".to_owned(), "first", 10, None, 0, false),
        Ok(LockOutcome::Acquired)
    ));
    let r = lock(&mut d, &"a".to_owned(), "second", 10, None, 100, false);
    match r {
        Ok(LockOutcome::Wait(ms)) => {
            assert_eq!(ms, 99);
            assert!(ms < 10_000);
        }
        other => panic!("expected a wait, got {}", outcome_name(&other)),
    }
    assert!(matches!(
        unlock(&mut d, &"a".to_owned(), &"first".to_owned(), 200),
        Ok(false)
    ));
    assert!(matches!(
        lock(&mut d, &"a".to_owned(), "second", 10, None, 200, false),
        Ok(LockOutcome::Acquired)
    ));
    assert_eq!(last_lock(&d, "a"), 200);
    assert_eq!(locked_until(&d, "a"), 10_200);
}

fn outcome_name(r: &Result<LockOutcome, LockError>) -> &'static str {
    match r {
        Ok(LockOutcome::Acquired) => "acquired",
        Ok(LockOutcome::ProbeHolder(_)) => "probe",
        Ok(LockOutcome::Wait(_)) => "wait",
        Err(LockError::TimeoutOverflow) => "overflow",
    }
}

#[test]
fn expired_lease_is_stolen() {
    let mut d = RootData::new();
    assert!(matches!(
        lock(&mut d, &"a".to_owned(), "first", 1, None, 0, false),
        Ok(LockOutcome::Acquired)
    ));
    // Lease ran out at 1000; a later attempt steals without any unlock.
    let r = lock(&mut d, &"a".to_owned(), "second", 5, None, 1000, false);
    assert!(matches!(r, Ok(LockOutcome::Acquired)));
    let kd = d.get(&"a".to_owned()).expect("record kept");
    assert_eq!(kd.lock_id, "second");
    assert_eq!(kd.locked_until, 6000);
}

#[test]
fn registered_endpoint_is_probed_before_anything_else() {
    let mut d = RootData::new();
    assert!(matches!(
        lock(
            &mut d,
            &"a".to_owned(),
            "first",
            10,
            Some("/root/lock-sock".to_owned()),
            0,
            false
        ),
        Ok(LockOutcome::Acquired)
    ));
    // Even after the lease expired, a registered endpoint is probed first.
    let r = lock(&mut d, &"a".to_owned(), "second", 10, None, 20_000, false);
    match r {
        Ok(LockOutcome::ProbeHolder(s)) => assert_eq!(s, "/root/lock-sock"),
        other => panic!("expected a probe, got {}", outcome_name(&other)),
    }
}

#[test]
fn dead_holder_is_stolen_before_lease_expiry() {
    // Liveness reclaim: the holder registered an endpoint and died; the
    // waiter that observed the failed probe acquires at once, well inside
    // the holder's lease window.
    let mut d = RootData::new();
    assert!(matches!(
        lock(
            &mut d,
            &"a".to_owned(),
            "first",
            3600,
            Some("/root/lock-sock".to_owned()),
            0,
            false
        ),
        Ok(LockOutcome::Acquired)
    ));
    let r = lock(&mut d, &"a".to_owned(), "second", 10, None, 5, true);
    assert!(matches!(r, Ok(LockOutcome::Acquired)));
    let kd = d.get(&"a".to_owned()).expect("record kept");
    assert_eq!(kd.lock_id, "second");
    assert_eq!(kd.last_lock, 5);
    assert!(kd.socket_path.is_none());
}

#[test]
fn last_lock_never_decreases_across_acquisitions() {
    let mut d = RootData::new();
    assert!(matches!(
        lock(&mut d, &"a".to_owned(), "first", 1, None, 500, false),
        Ok(LockOutcome::Acquired)
    ));
    let before = last_lock(&d, "a");
    assert!(matches!(
        lock(&mut d, &"a".to_owned(), "second", 1, None, 1500, false),
        Ok(LockOutcome::Acquired)
    ));
    assert!(last_lock(&d, "a") >= before);
}

#[test]
fn lease_overflow_is_rejected_before_any_mutation() {
    let mut d = RootData::new();
    let r = lock(&mut d, &"a".to_owned(), "id", u64::MAX, None, 0, false);
    match r {
        Err(e @ LockError::TimeoutOverflow) => assert_eq!(e.message(), "Timeout overflow"),
        other => panic!("expected an overflow error, got {}", outcome_name(&other)),
    }
    assert!(d.get(&"a".to_owned()).is_none());
}

#[test]
fn unlock_of_unknown_key_is_an_error_and_mutates_nothing() {
    // An unlock naming a key that never existed reports "key not found" and
    // performs no mutation.
    let mut d = RootData::new();
    assert!(matches!(
        lock(&mut d, &"other".to_owned(), "id", 10, None, 0, false),
        Ok(LockOutcome::Acquired)
    ));
    let r = unlock(&mut d, &"a".to_owned(), &"id".to_owned(), 50);
    assert!(matches!(r, Err(UnlockError::KeyNotFound)));
    assert_eq!(d.keys.len(), 1);
    assert_eq!(locked_until(&d, "other"), 10_000);
}

#[test]
fn unlock_with_wrong_id_is_refused_and_lease_unchanged() {
    let mut d = RootData::new();
    assert!(matches!(
        lock(&mut d, &"a".to_owned(), "owner", 10, None, 0, false),
        Ok(LockOutcome::Acquired)
    ));
    let r = unlock(&mut d, &"a".to_owned(), &"intruder".to_owned(), 50);
    assert!(matches!(r, Err(UnlockError::LockIdMismatch)));
    assert_eq!(locked_until(&d, "a"), 10_000);
    assert_eq!(last_lock(&d, "a"), 0);
}

#[test]
fn unlock_after_expiry_succeeds_with_a_warning_flag() {
    let mut d = RootData::new();
    assert!(matches!(
        lock(&mut d, &"a".to_owned(), "owner", 1, None, 0, false),
        Ok(LockOutcome::Acquired)
    ));
    let r = unlock(&mut d, &"a".to_owned(), &"owner".to_owned(), 5000);
    assert!(matches!(r, Ok(true)));
    assert_eq!(locked_until(&d, "a"), 5000);
}

#[test]
fn unlock_keeps_holder_and_endpoint_fields() {
    let mut d = RootData::new();
    assert!(matches!(
        lock(
            &mut d,
            &"a".to_owned(),
            "owner",
            10,
            Some("/r/sock".to_owned()),
            0,
            false
        ),
        Ok(LockOutcome::Acquired)
    ));
    assert!(matches!(
        unlock(&mut d, &"a".to_owned(), &"owner".to_owned(), 100),
        Ok(false)
    ));
    let kd = d.get(&"a".to_owned()).expect("record kept");
    assert_eq!(kd.locked_until, 100);
    assert_eq!(kd.lock_id, "owner");
    assert_eq!(kd.last_lock, 0);
    assert_eq!(kd.socket_path.as_deref(), Some("/r/sock"));
}

#[test]
fn poll_interval_is_clamped() {
    assert_eq!(poll_interval(0), MIN_POLL_MS);
    assert_eq!(poll_interval(999), 10);
    assert_eq!(poll_interval(5000), 50);
    assert_eq!(poll_interval(1_000_000), MAX_POLL_MS);
    assert_eq!(poll_interval(u64::MAX), MAX_POLL_MS);
}

#[test]
fn gc_deadline_subtracts_age_and_rejects_overflow() {
    assert!(matches!(gc_deadline(10_000, 3), Ok(7000)));
    assert!(matches!(gc_deadline(10_000, 10), Ok(0)));
    assert!(matches!(
        gc_deadline(10_000, 11),
        Err(LockError::TimeoutOverflow)
    ));
    assert!(matches!(
        gc_deadline(u64::MAX, u64::MAX),
        Err(LockError::TimeoutOverflow)
    ));
}

#[test]
fn gc_zero_age_after_unlock_all_collects_everything() {
    // `gc unused --seconds 0` after every lock was explicitly unlocked
    // deletes every key directory and empties the store.
    let mut d = RootData::new();
    for key in ["a", "b", "c"] {
        assert!(matches!(
            lock(&mut d, &key.to_owned(), "id", 1, None, 0, false),
            Ok(LockOutcome::Acquired)
        ));
        assert!(matches!(
            unlock(&mut d, &key.to_owned(), &"id".to_owned(), 500),
            Ok(false)
        ));
    }
    let now = 2000;
    let deadline = gc_deadline(now, 0).expect("no overflow");
    let plan = gc_plan(&d, now, deadline);
    assert_eq!(plan.len(), 3);
    for key in &plan {
        assert!(d.remove_key(key));
    }
    assert_eq!(d.keys.len(), 0);
}

#[test]
fn gc_spares_time_locked_and_recent_keys() {
    let mut d = RootData::new();
    // "held": still inside its lease at sweep time.
    assert!(matches!(
        lock(&mut d, &"held".to_owned(), "id", 100, None, 0, false),
        Ok(LockOutcome::Acquired)
    ));
    // "recent": unlocked, but locked again after the cutoff.
    assert!(matches!(
        lock(&mut d, &"recent".to_owned(), "id", 1, None, 9000, false),
        Ok(LockOutcome::Acquired)
    ));
    // "old": unlocked and last locked long before the cutoff.
    assert!(matches!(
        lock(&mut d, &"old".to_owned(), "id", 1, None, 0, false),
        Ok(LockOutcome::Acquired)
    ));
    let now = 10_000;
    let deadline = gc_deadline(now, 5).expect("no overflow");
    let plan = gc_plan(&d, now, deadline);
    assert_eq!(plan, vec!["old".to_owned()]);
    for key in &plan {
        assert!(d.remove_key(key));
    }
    assert!(d.get(&"held".to_owned()).is_some());
    assert!(d.get(&"recent".to_owned()).is_some());
    assert!(d.get(&"old".to_owned()).is_none());
}

#[test]
fn key_data_record_behaviour() {
    let mut kd = KeyData::new(100);
    assert!(!kd.is_timelocked(100));
    assert_eq!(kd.lock_id, "");
    assert_eq!(kd.expires_in(100), 0);
    assert!(kd.lock(100, "me", 2, None).is_ok());
    assert!(kd.is_timelocked(100));
    assert!(kd.is_timelocked(2099));
    assert!(!kd.is_timelocked(2100));
    assert_eq!(kd.expires_in(600), 1500);
    assert_eq!(kd.expires_in(9999), 0);
    assert!(kd.is_last_used_before(101));
    assert!(!kd.is_last_used_before(100));
    kd.unlock(150);
    assert_eq!(kd.locked_until, 150);
    assert_eq!(kd.last_lock, 100);
    assert!(matches!(
        kd.lock(0, "me", u64::MAX / 500, None),
        Err(LockError::TimeoutOverflow)
    ));
}
