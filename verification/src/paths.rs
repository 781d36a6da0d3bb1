//! Paths of key directories: composing `<root>/<key>` when a lock is
//! granted, and splitting it back into root and key when an unlock names the
//! directory it was given.

use vstd::prelude::*;
use vstd::string::StrSliceExecFns;
use vstd::string::StringExecFns;

verus! {

/// The path with its trailing separators removed: `a/b/` names the same
/// directory as `a/b`, so both must split alike.
pub open spec fn spec_trim_slashes(s: Seq<char>) -> Seq<char>
    decreases s.len(),
{
    if s.len() > 0 && s.last() == '/' {
        spec_trim_slashes(s.drop_last())
    } else {
        s
    }
}

/// Split a path at its last separator: everything before the last `/`, and
/// everything after it. A path without a separator is all final component.
pub open spec fn spec_split_path(s: Seq<char>) -> (Seq<char>, Seq<char>)
    decreases s.len(),
{
    if s.len() == 0 {
        (Seq::<char>::empty(), Seq::<char>::empty())
    } else if s.last() == '/' {
        (s.drop_last(), Seq::<char>::empty())
    } else {
        let pk = spec_split_path(s.drop_last());
        (pk.0, pk.1.push(s.last()))
    }
}

/// The final component names no directory: empty (the path is empty, a bare
/// root, or ends in a separator), or a relative step.
pub open spec fn spec_invalid_key_component(k: Seq<char>) -> bool {
    k.len() == 0 || k == seq!['.'] || k == seq!['.', '.']
}

/// Why a key directory path could not be split.
#[derive(Debug)]
pub enum PathError {
    /// The path's final component does not name a key directory.
    InvalidComponent,
}

/// Trimming stops at `end` when all of the tail is separators and the
/// character before `end`, if any, is not one.
proof fn lemma_trim_at(s: Seq<char>, end: int)
    requires
        0 <= end <= s.len(),
        forall|j: int| end <= j < s.len() ==> s[j] == '/',
        end == 0 || s[end - 1] != '/',
    ensures
        spec_trim_slashes(s) == s.take(end),
    decreases s.len(),
{
    if end == s.len() {
        assert(s.take(end) =~= s);
    } else {
        lemma_trim_at(s.drop_last(), end);
        assert(s.drop_last().take(end) =~= s.take(end));
    }
}

/// A path without separators splits into an empty parent and itself.
proof fn lemma_split_no_slash(s: Seq<char>)
    requires
        forall|j: int| 0 <= j < s.len() ==> s[j] != '/',
    ensures
        spec_split_path(s) == (Seq::<char>::empty(), s),
    decreases s.len(),
{
    if s.len() > 0 {
        lemma_split_no_slash(s.drop_last());
        assert(spec_split_path(s).1 =~= s);
    }
}

/// A path whose last separator stands at `ls` splits right there.
proof fn lemma_split_at(s: Seq<char>, ls: int)
    requires
        0 <= ls < s.len(),
        s[ls] == '/',
        forall|j: int| ls < j < s.len() ==> s[j] != '/',
    ensures
        spec_split_path(s) == (s.take(ls), s.skip(ls + 1)),
    decreases s.len(),
{
    if ls == s.len() - 1 {
        assert(s.drop_last() =~= s.take(ls));
        assert(s.skip(ls + 1) =~= Seq::<char>::empty());
    } else {
        lemma_split_at(s.drop_last(), ls);
        assert(s.drop_last().take(ls) =~= s.take(ls));
        assert(spec_split_path(s).1 =~= s.skip(ls + 1));
    }
}

/// Derive the cache root and the key from a key directory path, taking the
/// parent and the final path component. Trailing separators are ignored, as
/// the platform reads them. Rejects a path whose final component is empty
/// (the path is empty, a bare root, or nothing but separators) or a
/// relative step, since no key directory can have that name.
pub fn split_key_dir_path(dir: &str) -> (r: Result<(String, String), PathError>)
    ensures
        ({
            let pk = spec_split_path(spec_trim_slashes(dir@));
            match r {
                Ok(out) => out.0@ == pk.0 && out.1@ == pk.1 && !spec_invalid_key_component(pk.1),
                Err(_) => spec_invalid_key_component(pk.1),
            }
        }),
{
    let n = dir.unicode_len();
    let mut end: usize = n;
    while end > 0 && dir.get_char(end - 1) == '/'
        invariant
            n == dir@.len(),
            end <= n,
            forall|j: int| end <= j < n ==> dir@[j] == '/',
        decreases end,
    {
        end -= 1;
    }
    proof {
        lemma_trim_at(dir@, end as int);
    }
    let ghost t = spec_trim_slashes(dir@);
    proof {
        assert(t == dir@.take(end as int));
        assert(forall|j: int| 0 <= j < end ==> t[j] == dir@[j]);
    }

    let mut i: usize = 0;
    let mut last_slash: Option<usize> = None;
    while i < end
        invariant
            n == dir@.len(),
            end <= n,
            i <= end,
            t == dir@.take(end as int),
            match last_slash {
                Some(ls) => ls < i && dir@[ls as int] == '/' && (forall|j: int|
                    ls < j < i ==> dir@[j] != '/'),
                None => forall|j: int| 0 <= j < i ==> dir@[j] != '/',
            },
        decreases end - i,
    {
        if dir.get_char(i) == '/' {
            last_slash = Some(i);
        }
        i += 1;
    }

    let key_start: usize = match last_slash {
        Some(ls) => {
            proof {
                lemma_split_at(t, ls as int);
            }
            ls + 1
        },
        None => {
            proof {
                lemma_split_no_slash(t);
            }
            0
        },
    };

    let key_len = end - key_start;
    let invalid = if key_len == 0 {
        true
    } else if key_len == 1 {
        dir.get_char(key_start) == '.'
    } else if key_len == 2 {
        dir.get_char(key_start) == '.' && dir.get_char(key_start + 1) == '.'
    } else {
        false
    };
    proof {
        let k = spec_split_path(t).1;
        assert(k =~= t.skip(key_start as int));
        assert(forall|j: int| 0 <= j < k.len() ==> k[j] == t.skip(key_start as int)[j]);
        assert(forall|j: int| 0 <= j < k.len() ==> t.skip(key_start as int)[j] == t[key_start + j]);
        if key_len == 1 && dir@[key_start as int] == '.' {
            assert(k =~= seq!['.']);
        }
        if key_len == 2 && dir@[key_start as int] == '.' && dir@[key_start as int + 1] == '.' {
            assert(k =~= seq!['.', '.']);
        }
        if k == seq!['.'] {
            assert(k[0] == '.');
            assert(k[0] == t[key_start as int]);
        }
        if k == seq!['.', '.'] {
            assert(k[0] == '.' && k[1] == '.');
            assert(k[0] == t[key_start as int]);
            assert(k[1] == t[key_start as int + 1]);
        }
    }
    if invalid {
        return Err(PathError::InvalidComponent);
    }

    let key = String::from_str(dir.substring_char(key_start, end));
    let parent = match last_slash {
        Some(ls) => String::from_str(dir.substring_char(0, ls)),
        None => String::new(),
    };
    proof {
        assert(parent@ =~= spec_split_path(t).0);
        assert(key@ =~= spec_split_path(t).1);
    }
    Ok((parent, key))
}

/// The directory a key names under a root: `<root>/<key>`.
pub fn key_dir_path(root: &str, key: &str) -> (r: String)
    ensures
        r@ == root@ + seq!['/'] + key@,
{
    let mut out = root.to_owned();
    out.append("/");
    out.append(key);
    proof {
        reveal_strlit("/");
        assert("/"@ =~= seq!['/']);
    }
    out
}

/// Splitting a key directory path undoes composing it: for a key that is a
/// plain name — nonempty, no separator, not a relative step — the unlock
/// side recovers exactly the root and the key the lock side joined.
pub proof fn lemma_key_dir_path_round_trip(root: Seq<char>, key: Seq<char>)
    requires
        key.len() > 0,
        forall|j: int| 0 <= j < key.len() ==> key[j] != '/',
        key != seq!['.'],
        key != seq!['.', '.'],
    ensures
        spec_split_path(spec_trim_slashes(root + seq!['/'] + key)) == (root, key),
        !spec_invalid_key_component((spec_split_path(spec_trim_slashes(root + seq!['/'] + key))).1),
{
    let s = root + seq!['/'] + key;
    let ls = root.len() as int;
    assert(s[ls] == '/');
    assert(forall|j: int| ls < j < s.len() ==> s[j] == key[j - ls - 1]);
    assert(s.last() == key.last());
    assert(spec_trim_slashes(s) == s);
    lemma_split_at(s, ls);
    assert(s.take(ls) =~= root);
    assert(s.skip(ls + 1) =~= key);
}

} // verus!
