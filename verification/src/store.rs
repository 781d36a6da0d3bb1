//! The metadata store: a mapping from cache key to its lock record, kept as a
//! vector of entries in strictly ascending key order, so that two stores
//! holding the same mapping persist identically.

use vstd::prelude::*;

use crate::dto::{KeyData, KeyDataV};

verus! {

/// One stored entry: the cache key and its lock record.
pub type StoreEntry = (String, KeyData);

/// Lookup in a sequence of entries: the record of the first entry whose key
/// is `k`, if any.
pub open spec fn spec_get(s: Seq<StoreEntry>, k: Seq<char>) -> Option<KeyDataV>
    decreases s.len(),
{
    if s.len() == 0 {
        None
    } else if s[0].0@ == k {
        Some(s[0].1@)
    } else {
        spec_get(s.skip(1), k)
    }
}

/// No two entries share a key.
pub open spec fn keys_unique(s: Seq<StoreEntry>) -> bool {
    forall|i: int, j: int| 0 <= i < j < s.len() ==> s[i].0@ != s[j].0@
}

/// Strict lexicographic order on key texts, by code point: a proper prefix
/// comes first, otherwise the first differing character decides.
pub open spec fn key_lt(a: Seq<char>, b: Seq<char>) -> bool
    decreases a.len(),
{
    if b.len() == 0 {
        false
    } else if a.len() == 0 {
        true
    } else if a[0] == b[0] {
        key_lt(a.skip(1), b.skip(1))
    } else {
        (a[0] as int) < (b[0] as int)
    }
}

/// No key text precedes itself.
pub proof fn lemma_key_lt_irrefl(a: Seq<char>)
    ensures
        !key_lt(a, a),
    decreases a.len(),
{
    if a.len() > 0 {
        lemma_key_lt_irrefl(a.skip(1));
    }
}

/// Distinct key texts are ordered one way or the other.
pub proof fn lemma_key_lt_connected(a: Seq<char>, b: Seq<char>)
    requires
        a != b,
    ensures
        key_lt(a, b) || key_lt(b, a),
    decreases a.len(),
{
    if a.len() == 0 {
        if b.len() == 0 {
            assert(a =~= b);
        }
    } else if b.len() == 0 {
    } else if a[0] == b[0] {
        if a.skip(1) == b.skip(1) {
            assert(a.skip(1).len() == b.skip(1).len());
            assert(a.len() == b.len());
            assert forall|i: int| 0 <= i < a.len() implies a[i] == b[i] by {
                if i > 0 {
                    assert(a[i] == a.skip(1)[i - 1]);
                    assert(b[i] == b.skip(1)[i - 1]);
                }
            }
            assert(a =~= b);
        }
        lemma_key_lt_connected(a.skip(1), b.skip(1));
    }
}

/// The order is transitive.
pub proof fn lemma_key_lt_trans(a: Seq<char>, b: Seq<char>, c: Seq<char>)
    requires
        key_lt(a, b),
        key_lt(b, c),
    ensures
        key_lt(a, c),
    decreases a.len(),
{
    if a.len() > 0 {
        if a[0] == b[0] && b[0] == c[0] {
            lemma_key_lt_trans(a.skip(1), b.skip(1), c.skip(1));
        }
    }
}

/// Entries stand in strictly ascending key order.
pub open spec fn keys_sorted(s: Seq<StoreEntry>) -> bool {
    forall|i: int, j: int| 0 <= i < j < s.len() ==> key_lt(s[i].0@, s[j].0@)
}

/// Sorted entries carry pairwise-distinct keys.
pub proof fn lemma_sorted_unique(s: Seq<StoreEntry>)
    requires
        keys_sorted(s),
    ensures
        keys_unique(s),
{
    assert forall|i: int, j: int| 0 <= i < j < s.len() implies s[i].0@ != s[j].0@ by {
        if s[i].0@ == s[j].0@ {
            assert(key_lt(s[i].0@, s[j].0@));
            lemma_key_lt_irrefl(s[i].0@);
        }
    }
}

/// Strict lexicographic comparison of two key texts, by code point.
fn str_key_lt(a: &str, b: &str) -> (r: bool)
    ensures
        r == key_lt(a@, b@),
{
    let na = a.unicode_len();
    let nb = b.unicode_len();
    proof {
        assert(a@.skip(0) =~= a@);
        assert(b@.skip(0) =~= b@);
    }
    let mut i: usize = 0;
    while i < na && i < nb
        invariant
            na == a@.len(),
            nb == b@.len(),
            i <= na,
            i <= nb,
            key_lt(a@, b@) == key_lt(a@.skip(i as int), b@.skip(i as int)),
        decreases na - i,
    {
        let ca = a.get_char(i);
        let cb = b.get_char(i);
        proof {
            assert(a@.skip(i as int)[0] == ca);
            assert(b@.skip(i as int)[0] == cb);
        }
        if ca != cb {
            return (ca as u32) < (cb as u32);
        }
        proof {
            assert(a@.skip(i as int).skip(1) =~= a@.skip(i + 1));
            assert(b@.skip(i as int).skip(1) =~= b@.skip(i + 1));
        }
        i += 1;
    }
    proof {
        if i < nb {
            assert(b@.skip(i as int).len() > 0);
            assert(a@.skip(i as int).len() == 0);
        } else {
            assert(b@.skip(i as int).len() == 0);
        }
    }
    na < nb
}

/// Inserting an entry whose key is absent changes only that key's lookup.
pub proof fn lemma_spec_get_insert(s: Seq<StoreEntry>, i: int, e: StoreEntry, k: Seq<char>)
    requires
        0 <= i <= s.len(),
        forall|j: int| 0 <= j < s.len() ==> s[j].0@ != e.0@,
    ensures
        spec_get(s.insert(i, e), k) == (if k == e.0@ {
            Some(e.1@)
        } else {
            spec_get(s, k)
        }),
    decreases s.len(),
{
    let t = s.insert(i, e);
    if i == 0 {
        assert(t[0] == e);
        assert(t.skip(1) =~= s);
    } else {
        assert(t[0] == s[0]);
        assert(t.skip(1) =~= s.skip(1).insert(i - 1, e));
        assert(forall|j: int| 1 <= j < s.len() ==> s.skip(1)[j - 1] == s[j]);
        lemma_spec_get_insert(s.skip(1), i - 1, e, k);
        if s[0].0@ == k {
            lemma_spec_get_first_match(t, k, 0);
        }
    }
}

/// A key is absent exactly when no entry carries it.
pub proof fn lemma_spec_get_none(s: Seq<StoreEntry>, k: Seq<char>)
    ensures
        (spec_get(s, k) is None) <==> (forall|i: int| 0 <= i < s.len() ==> s[i].0@ != k),
    decreases s.len(),
{
    if s.len() > 0 {
        lemma_spec_get_none(s.skip(1), k);
        assert(forall|i: int| 1 <= i < s.len() ==> s.skip(1)[i - 1] == s[i]);
    }
}

/// A first match determines the lookup result.
pub proof fn lemma_spec_get_first_match(s: Seq<StoreEntry>, k: Seq<char>, i: int)
    requires
        0 <= i < s.len(),
        s[i].0@ == k,
        forall|j: int| 0 <= j < i ==> s[j].0@ != k,
    ensures
        spec_get(s, k) == Some(s[i].1@),
    decreases s.len(),
{
    if i > 0 {
        assert(forall|j: int| 1 <= j < s.len() ==> s.skip(1)[j - 1] == s[j]);
        lemma_spec_get_first_match(s.skip(1), k, i - 1);
    }
}

/// A present key is carried by some entry.
pub proof fn lemma_spec_get_some(s: Seq<StoreEntry>, k: Seq<char>)
    ensures
        spec_get(s, k) matches Some(v) ==> exists|i: int|
            0 <= i < s.len() && s[i].0@ == k && s[i].1@ == v,
    decreases s.len(),
{
    if s.len() > 0 && s[0].0@ != k {
        lemma_spec_get_some(s.skip(1), k);
        if spec_get(s, k) is Some {
            let v = spec_get(s, k)->Some_0;
            let i = choose|i: int|
                0 <= i < s.skip(1).len() && s.skip(1)[i].0@ == k && s.skip(1)[i].1@ == v;
            assert(s[i + 1].0@ == k && s[i + 1].1@ == v);
        }
    }
}

/// Appending an entry changes only the lookup of its own key, and only if
/// that key was absent.
pub proof fn lemma_spec_get_push(s: Seq<StoreEntry>, e: StoreEntry, k: Seq<char>)
    ensures
        spec_get(s.push(e), k) == (if spec_get(s, k) is Some {
            spec_get(s, k)
        } else if e.0@ == k {
            Some(e.1@)
        } else {
            None
        }),
    decreases s.len(),
{
    let t = s.push(e);
    if s.len() == 0 {
        assert(t[0] == e);
        assert(t.skip(1) =~= Seq::<StoreEntry>::empty());
        if e.0@ == k {
            assert(spec_get(t, k) == Some(e.1@));
        } else {
            assert(spec_get(t, k) == spec_get(t.skip(1), k));
            assert(spec_get(t.skip(1), k) is None);
        }
    } else {
        assert(t[0] == s[0]);
        assert(t.skip(1) =~= s.skip(1).push(e));
        lemma_spec_get_push(s.skip(1), e, k);
        if s[0].0@ == k {
            assert(spec_get(t, k) == Some(s[0].1@));
            assert(spec_get(s, k) == Some(s[0].1@));
        } else {
            assert(spec_get(t, k) == spec_get(s.skip(1).push(e), k));
            assert(spec_get(s, k) == spec_get(s.skip(1), k));
        }
    }
}

/// Replacing the record at the first entry for a key rewrites that key's
/// lookup and leaves every other key's lookup unchanged.
pub proof fn lemma_spec_get_update(s: Seq<StoreEntry>, i: int, e: StoreEntry, k: Seq<char>)
    requires
        0 <= i < s.len(),
        s[i].0@ == e.0@,
        forall|j: int| 0 <= j < i ==> s[j].0@ != e.0@,
    ensures
        spec_get(s.update(i, e), k) == (if k == e.0@ {
            Some(e.1@)
        } else {
            spec_get(s, k)
        }),
    decreases s.len(),
{
    let t = s.update(i, e);
    if i == 0 {
        assert(t[0] == e);
        assert(t.skip(1) =~= s.skip(1));
        if k == e.0@ {
            lemma_spec_get_first_match(t, k, 0);
        }
    } else {
        assert(t[0] == s[0]);
        assert(t.skip(1) =~= s.skip(1).update(i - 1, e));
        assert(forall|j: int| 1 <= j < s.len() ==> s.skip(1)[j - 1] == s[j]);
        lemma_spec_get_update(s.skip(1), i - 1, e, k);
    }
}

/// Removing the only entry for a key empties that key's lookup and leaves
/// every other key's lookup unchanged.
pub proof fn lemma_spec_get_remove(s: Seq<StoreEntry>, i: int, k: Seq<char>)
    requires
        0 <= i < s.len(),
        keys_unique(s),
    ensures
        spec_get(s.remove(i), k) == (if k == s[i].0@ {
            None
        } else {
            spec_get(s, k)
        }),
    decreases s.len(),
{
    let t = s.remove(i);
    if k == s[i].0@ {
        lemma_spec_get_none(s, k);
        lemma_spec_get_none(t, k);
        assert(forall|j: int| 0 <= j < t.len() ==> t[j] == (if j < i {
            s[j]
        } else {
            s[j + 1]
        }));
    } else {
        if i == 0 {
            assert(t =~= s.skip(1));
        } else {
            assert(t[0] == s[0]);
            assert(t.skip(1) =~= s.skip(1).remove(i - 1));
            assert(forall|j: int| 1 <= j < s.len() ==> s.skip(1)[j - 1] == s[j]);
            lemma_spec_get_remove(s.skip(1), i - 1, k);
        }
    }
}

/// The persisted mapping from cache key to lock record. Entries are kept
/// sorted by key, so the persisted form is a function of the mapping alone,
/// whatever order the keys were locked in.
pub struct RootData {
    /// The entries, in strictly ascending key order.
    pub keys: Vec<StoreEntry>,
}

impl RootData {
    /// Well-formedness: entries sorted by key, so no key occurs twice.
    pub open spec fn wf(self) -> bool {
        keys_sorted(self.keys@)
    }

    /// The record currently stored for key `k`, if any.
    pub open spec fn spec_lookup(self, k: Seq<char>) -> Option<KeyDataV> {
        spec_get(self.keys@, k)
    }

    /// The empty store: what a root starts from before any key was locked.
    pub fn new() -> (r: Self)
        ensures
            r.wf(),
            r.keys@.len() == 0,
            forall|k: Seq<char>| r.spec_lookup(k) is None,
    {
        let r = Self { keys: Vec::new() };
        proof {
            assert forall|k: Seq<char>| r.spec_lookup(k) is None by {
                lemma_spec_get_none(r.keys@, k);
            }
        }
        r
    }

    /// Index of the entry for `key`, if present.
    fn find(&self, key: &String) -> (r: Option<usize>)
        ensures
            match r {
                Some(i) => i < self.keys@.len() && self.keys@[i as int].0@ == key@ && (forall|
                    j: int,
                |
                    0 <= j < i ==> self.keys@[j].0@ != key@),
                None => forall|j: int| 0 <= j < self.keys@.len() ==> self.keys@[j].0@ != key@,
            },
    {
        let n = self.keys.len();
        let mut i: usize = 0;
        while i < n
            invariant
                n == self.keys@.len(),
                i <= n,
                forall|j: int| 0 <= j < i ==> self.keys@[j].0@ != key@,
            decreases n - i,
        {
            if self.keys[i].0 == *key {
                return Some(i);
            }
            i += 1;
        }
        None
    }

    /// The record stored for `key`, if any.
    pub fn get(&self, key: &String) -> (r: Option<&KeyData>)
        ensures
            match r {
                Some(kd) => self.spec_lookup(key@) == Some(kd@),
                None => self.spec_lookup(key@) is None,
            },
    {
        match self.find(key) {
            Some(i) => {
                proof {
                    lemma_spec_get_first_match(self.keys@, key@, i as int);
                }
                Some(&self.keys[i].1)
            },
            None => {
                proof {
                    lemma_spec_get_none(self.keys@, key@);
                }
                None
            },
        }
    }

    /// Store `kd` under `key`, replacing the previous record if one exists.
    pub fn upsert(&mut self, key: String, kd: KeyData)
        requires
            old(self).wf(),
        ensures
            final(self).wf(),
            final(self).spec_lookup(key@) == Some(kd@),
            forall|k: Seq<char>| k != key@ ==> final(self).spec_lookup(k) == old(
                self,
            ).spec_lookup(k),
    {
        let ghost s0 = self.keys@;
        match self.find(&key) {
            Some(i) => {
                proof {
                    lemma_spec_get_update(s0, i as int, (key, kd), key@);
                    assert forall|k: Seq<char>| k != key@ implies spec_get(
                        s0.update(i as int, (key, kd)),
                        k,
                    ) == spec_get(s0, k) by {
                        lemma_spec_get_update(s0, i as int, (key, kd), k);
                    }
                    let t = s0.update(i as int, (key, kd));
                    assert forall|i2: int, j2: int|
                        0 <= i2 < j2 < t.len() implies key_lt(t[i2].0@, t[j2].0@) by {
                        assert(t[i2].0@ == s0[i2].0@ && t[j2].0@ == s0[j2].0@);
                    }
                }
                self.keys[i] = (key, kd);
            },
            None => {
                let n = self.keys.len();
                let mut pos: usize = 0;
                while pos < n && str_key_lt(self.keys[pos].0.as_str(), key.as_str())
                    invariant
                        self.keys@ == s0,
                        n == s0.len(),
                        pos <= n,
                        forall|j: int| 0 <= j < pos ==> key_lt(s0[j].0@, key@),
                    decreases n - pos,
                {
                    pos += 1;
                }
                proof {
                    let ghost e = (key, kd);
                    lemma_spec_get_insert(s0, pos as int, e, key@);
                    assert forall|k: Seq<char>| k != key@ implies spec_get(
                        s0.insert(pos as int, e),
                        k,
                    ) == spec_get(s0, k) by {
                        lemma_spec_get_insert(s0, pos as int, e, k);
                    }
                    if pos < n {
                        lemma_key_lt_connected(key@, s0[pos as int].0@);
                    }
                    let t = s0.insert(pos as int, e);
                    assert forall|i2: int, j2: int|
                        0 <= i2 < j2 < t.len() implies key_lt(t[i2].0@, t[j2].0@) by {
                        let p = pos as int;
                        if j2 < p {
                            assert(t[i2] == s0[i2] && t[j2] == s0[j2]);
                        } else if j2 == p {
                            assert(t[i2] == s0[i2] && t[j2] == e);
                        } else if i2 < p {
                            assert(t[i2] == s0[i2] && t[j2] == s0[j2 - 1]);
                            assert(key_lt(s0[i2].0@, s0[j2 - 1].0@));
                        } else if i2 == p {
                            assert(t[i2] == e && t[j2] == s0[j2 - 1]);
                            if j2 - 1 > p {
                                lemma_key_lt_trans(key@, s0[p].0@, s0[j2 - 1].0@);
                            }
                        } else {
                            assert(t[i2] == s0[i2 - 1] && t[j2] == s0[j2 - 1]);
                            assert(key_lt(s0[i2 - 1].0@, s0[j2 - 1].0@));
                        }
                    }
                }
                self.keys.insert(pos, (key, kd));
            },
        }
    }

    /// Drop the record for `key`. Reports whether one was present.
    pub fn remove_key(&mut self, key: &String) -> (r: bool)
        requires
            old(self).wf(),
        ensures
            final(self).wf(),
            final(self).spec_lookup(key@) is None,
            forall|k: Seq<char>| k != key@ ==> final(self).spec_lookup(k) == old(
                self,
            ).spec_lookup(k),
            r == (old(self).spec_lookup(key@) is Some),
    {
        let ghost s0 = self.keys@;
        match self.find(key) {
            Some(i) => {
                proof {
                    lemma_sorted_unique(s0);
                    lemma_spec_get_first_match(s0, key@, i as int);
                    lemma_spec_get_remove(s0, i as int, key@);
                    assert forall|k: Seq<char>| k != key@ implies spec_get(
                        s0.remove(i as int),
                        k,
                    ) == spec_get(s0, k) by {
                        lemma_spec_get_remove(s0, i as int, k);
                    }
                    lemma_spec_get_none(s0.remove(i as int), key@);
                    let t = s0.remove(i as int);
                    assert(forall|j: int|
                        0 <= j < t.len() ==> t[j] == (if j < i as int {
                            s0[j]
                        } else {
                            s0[j + 1]
                        }));
                    assert forall|i2: int, j2: int|
                        0 <= i2 < j2 < t.len() implies key_lt(t[i2].0@, t[j2].0@) by {}
                }
                self.keys.remove(i);
                true
            },
            None => {
                proof {
                    lemma_spec_get_none(s0, key@);
                }
                false
            },
        }
    }
}

} // verus!
