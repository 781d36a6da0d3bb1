//! Persistence of the metadata store: the store is flattened to plain wire
//! entries, written as one JSON document, and read back. The JSON byte work
//! is done by an outside serializer behind trusted wrappers; everything
//! between the store and the wire entries is verified, so persisting and
//! reloading provably yields an equivalent mapping.

use vstd::prelude::*;

use crate::dto::{KeyData, KeyDataV};
use crate::store::{spec_get, keys_unique, lemma_spec_get_first_match, lemma_spec_get_push,
    RootData, StoreEntry};

verus! {

/// One persisted entry: key, lease end, holder identifier, last acquisition
/// time, optional liveness endpoint.
pub type WireEntry = (String, u64, String, u64, Option<String>);

/// Mathematical value of a [`WireEntry`].
pub type WireEntryV = (Seq<char>, u64, Seq<char>, u64, Option<Seq<char>>);

/// The value a wire entry denotes.
pub open spec fn wire_entry_view(e: WireEntry) -> WireEntryV {
    (
        e.0@,
        e.1,
        e.2@,
        e.3,
        (match e.4 {
            Some(s) => Some(s@),
            None => None,
        }),
    )
}

/// Values of a sequence of wire entries.
pub open spec fn wire_views(s: Seq<WireEntry>) -> Seq<WireEntryV> {
    s.map_values(|e: WireEntry| wire_entry_view(e))
}

/// The lock record a wire entry carries.
pub open spec fn spec_wire_record(e: WireEntryV) -> KeyDataV {
    KeyDataV { locked_until: e.1, lock_id: e.2, last_lock: e.3, socket_path: e.4 }
}

/// The wire entry a store entry is persisted as.
pub open spec fn spec_entry_wire(e: StoreEntry) -> WireEntryV {
    (e.0@, e.1@.locked_until, e.1@.lock_id, e.1@.last_lock, e.1@.socket_path)
}

/// The wire form of a whole store, entry for entry, in the store's
/// ascending key order.
pub open spec fn spec_store_wire(d: RootData) -> Seq<WireEntryV> {
    d.keys@.map_values(|e: StoreEntry| spec_entry_wire(e))
}

/// Lookup among wire entries, the later entry winning, as sequential
/// insertion into a mapping reads a duplicated key.
pub open spec fn spec_wire_get(s: Seq<WireEntryV>, k: Seq<char>) -> Option<KeyDataV>
    decreases s.len(),
{
    if s.len() == 0 {
        None
    } else if s.last().0 == k {
        Some(spec_wire_record(s.last()))
    } else {
        spec_wire_get(s.drop_last(), k)
    }
}

/// The JSON document the outside serializer produces for given wire entries.
pub uninterp spec fn json_of_entries(entries: Seq<WireEntryV>) -> Seq<char>;

/// Relies on serde_json::to_string_pretty: the document it writes for a
/// value is a function of that value alone. Strings and integers of this
/// entry type always serialize, so the call cannot fail.
#[verifier::external_body]
fn entries_to_json(entries: &Vec<WireEntry>) -> (r: String)
    ensures
        r@ == json_of_entries(wire_views(entries@)),
{
    serde_json::to_string_pretty(entries).expect("plain strings and integers always serialize")
}

/// Relies on serde_json::from_str: parsing a document that
/// serde_json::to_string_pretty wrote for this entry type yields the same
/// entries back; any document it rejects is reported, not guessed at.
#[verifier::external_body]
fn entries_from_json(s: &str) -> (r: Result<Vec<WireEntry>, String>)
    ensures
        r matches Err(_) ==> (forall|e: Seq<WireEntryV>| s@ != json_of_entries(e)),
        r matches Ok(v) ==> (forall|e: Seq<WireEntryV>|
            s@ == json_of_entries(e) ==> wire_views(v@) == e),
{
    serde_json::from_str(s).map_err(|e| e.to_string())
}

/// Failure to read a persisted store back.
#[derive(Debug)]
pub enum StoreError {
    /// The file's contents are not a store document; the payload is the
    /// parser's description. Surfaced to the caller as fatal, never as
    /// silent data loss.
    Parse(String),
}

impl StoreError {
    /// Human-readable description of the failure.
    pub fn message(&self) -> (r: String)
        ensures
            (match self {
                StoreError::Parse(s) => r@ == s@,
            }),
    {
        match self {
            StoreError::Parse(s) => s.clone(),
        }
    }
}

/// Flatten the store to its wire entries, in the store's ascending
/// key order.
fn to_wire(data: &RootData) -> (r: Vec<WireEntry>)
    ensures
        wire_views(r@) == spec_store_wire(*data),
{
    let n = data.keys.len();
    let mut r: Vec<WireEntry> = Vec::new();
    let mut i: usize = 0;
    while i < n
        invariant
            n == data.keys@.len(),
            i <= n,
            r@.len() == i,
            forall|j: int| 0 <= j < i ==> wire_entry_view(r@[j]) == spec_entry_wire(data.keys@[j]),
        decreases n - i,
    {
        let entry = &data.keys[i];
        let kd = &entry.1;
        r.push(
            (
                entry.0.clone(),
                kd.locked_until,
                kd.lock_id.clone(),
                kd.last_lock,
                (match &kd.socket_path {
                    Some(s) => Some(s.clone()),
                    None => None,
                }),
            ),
        );
        i += 1;
    }
    proof {
        assert(wire_views(r@) =~= spec_store_wire(*data));
    }
    r
}

/// Rebuild a store from wire entries, a later duplicate of a key replacing
/// an earlier one, as reading the document into a mapping would.
fn from_wire(entries: &Vec<WireEntry>) -> (r: RootData)
    ensures
        r.wf(),
        forall|k: Seq<char>| r.spec_lookup(k) == spec_wire_get(wire_views(entries@), k),
{
    let n = entries.len();
    let mut r = RootData::new();
    let mut i: usize = 0;
    while i < n
        invariant
            n == entries@.len(),
            i <= n,
            r.wf(),
            forall|k: Seq<char>|
                r.spec_lookup(k) == spec_wire_get(wire_views(entries@.take(i as int)), k),
        decreases n - i,
    {
        let e = &entries[i];
        let kd = KeyData {
            locked_until: e.1,
            lock_id: e.2.clone(),
            last_lock: e.3,
            socket_path: (match &e.4 {
                Some(s) => Some(s.clone()),
                None => None,
            }),
        };
        let ghost prev = wire_views(entries@.take(i as int));
        let ghost ev = wire_entry_view(entries@[i as int]);
        proof {
            assert(kd@ == spec_wire_record(ev));
            assert(wire_views(entries@.take(i + 1)) =~= prev.push(ev));
        }
        r.upsert(e.0.clone(), kd);
        proof {
            assert forall|k: Seq<char>|
                r.spec_lookup(k) == spec_wire_get(wire_views(entries@.take(i + 1)), k) by {
                let cur = wire_views(entries@.take(i + 1));
                assert(cur.last() == ev);
                assert(cur.drop_last() =~= prev);
            }
        }
        i += 1;
    }
    proof {
        assert(entries@.take(n as int) =~= entries@);
    }
    r
}

/// Persist: the JSON document for the store's wire entries.
pub fn encode_store(data: &RootData) -> (r: String)
    ensures
        r@ == json_of_entries(spec_store_wire(*data)),
{
    let wire = to_wire(data);
    entries_to_json(&wire)
}

/// Load: parse a store document back into a store.
///
/// Reading back what [`encode_store`] wrote for a well-formed store yields
/// an equivalent mapping: the same keys carry the same records.
pub fn decode_store(s: &str) -> (r: Result<RootData, StoreError>)
    ensures
        r matches Ok(out) ==> out.wf(),
        forall|d: RootData|
            d.wf() && s@ == json_of_entries(spec_store_wire(d)) ==> (r matches Ok(out) && (forall|
                k: Seq<char>,
            | out.spec_lookup(k) == d.spec_lookup(k))),
{
    match entries_from_json(s) {
        Err(msg) => Err(StoreError::Parse(msg)),
        Ok(entries) => {
            let out = from_wire(&entries);
            proof {
                assert forall|d: RootData|
                    d.wf() && s@ == json_of_entries(spec_store_wire(d)) implies (forall|
                    k: Seq<char>,
                | out.spec_lookup(k) == d.spec_lookup(k)) by {
                    assert(wire_views(entries@) == spec_store_wire(d));
                    assert forall|k: Seq<char>| out.spec_lookup(k) == d.spec_lookup(k) by {
                        lemma_store_round_trip(d, k);
                    }
                }
            }
            Ok(out)
        },
    }
}

/// Round-trip of the store: reading a well-formed store's wire form back —
/// later duplicates winning, though a well-formed store has none — yields
/// exactly the record the store holds, for every key.
pub proof fn lemma_store_round_trip(d: RootData, k: Seq<char>)
    requires
        d.wf(),
    ensures
        spec_wire_get(spec_store_wire(d), k) == d.spec_lookup(k),
{
    crate::store::lemma_sorted_unique(d.keys@);
    lemma_wire_get_inverts(d.keys@, k);
}

/// The wire lookup over a store's entries agrees with the store's lookup,
/// provided no key occurs twice.
proof fn lemma_wire_get_inverts(s: Seq<StoreEntry>, k: Seq<char>)
    requires
        keys_unique(s),
    ensures
        spec_wire_get(s.map_values(|e: StoreEntry| spec_entry_wire(e)), k) == spec_get(s, k),
    decreases s.len(),
{
    let w = s.map_values(|e: StoreEntry| spec_entry_wire(e));
    if s.len() == 0 {
    } else if s.last().0@ == k {
        assert(spec_wire_record(w.last()) == s.last().1@);
        lemma_spec_get_first_match(s, k, s.len() - 1);
    } else {
        assert(w.drop_last() =~= s.drop_last().map_values(|e: StoreEntry| spec_entry_wire(e)));
        lemma_wire_get_inverts(s.drop_last(), k);
        assert(s =~= s.drop_last().push(s.last()));
        lemma_spec_get_push(s.drop_last(), s.last(), k);
    }
}

} // verus!
