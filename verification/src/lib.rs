//! Filesystem-backed, cross-process cache-directory allocator: per-key lock
//! records with lease timeouts, liveness endpoints, and garbage collection of
//! long-unused key directories.
//!
//! This crate holds the verified core: the metadata store, the per-key lock
//! state machine, the garbage-collection selection, the store codec, and the
//! key derivation. The surrounding process (file I/O, the advisory root lock,
//! sockets, sleeping) drives these functions from outside.

use vstd::prelude::*;

mod codec;
mod dto;
mod engine;
mod keyhash;
mod paths;
mod store;

pub use codec::StoreError;
pub use codec::decode_store;
pub use codec::encode_store;
pub use codec::json_of_entries;
pub use codec::lemma_store_round_trip;
pub use codec::spec_store_wire;
pub use codec::spec_wire_get;
pub use engine::gc_eligible;
pub use engine::lemma_gc_safety;
pub use engine::lemma_last_lock_monotone;
pub use engine::lemma_leases_do_not_overlap;
pub use engine::lemma_liveness_reclaim;
pub use engine::lemma_mutual_exclusion;
pub use engine::spec_acquirable;
pub use engine::spec_acquired_record;
pub use keyhash::blake3_hex_of;
pub use keyhash::cache_key;
pub use keyhash::spec_key_material;
pub use keyhash::spec_lower_hex_digit;
pub use paths::PathError;
pub use paths::key_dir_path;
pub use paths::lemma_key_dir_path_round_trip;
pub use paths::spec_invalid_key_component;
pub use paths::spec_split_path;
pub use paths::spec_trim_slashes;
pub use paths::split_key_dir_path;

pub use dto::KeyData;
pub use dto::KeyDataV;
pub use dto::LockError;
pub use engine::LockOutcome;
pub use engine::UnlockError;
pub use engine::gc_deadline;
pub use engine::gc_plan;
pub use engine::lock;
pub use engine::unlock;
pub use store::RootData;

verus! {

/// Milliseconds a waiter sleeps at least before polling a held key again.
pub const MIN_POLL_MS: u64 = 10;

/// Milliseconds a waiter sleeps at most before polling a held key again.
pub const MAX_POLL_MS: u64 = 10000;

/// Bounded poll interval: a fraction of the remaining lease time, clamped so
/// a waiter neither busy-waits nor oversleeps a short lease.
pub fn poll_interval(expires_in_ms: u64) -> (r: u64)
    ensures
        r == spec_poll_interval(expires_in_ms),
{
    let raw = expires_in_ms / 100;
    if raw < MIN_POLL_MS {
        MIN_POLL_MS
    } else if raw > MAX_POLL_MS {
        MAX_POLL_MS
    } else {
        raw
    }
}

/// The poll interval as a mathematical function of the remaining lease time.
pub open spec fn spec_poll_interval(expires_in_ms: u64) -> u64 {
    let raw = expires_in_ms / 100;
    if raw < MIN_POLL_MS {
        MIN_POLL_MS
    } else if raw > MAX_POLL_MS {
        MAX_POLL_MS
    } else {
        raw
    }
}

} // verus!
