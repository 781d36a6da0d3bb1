//! Derivation of the cache key: a human-chosen name plus a content-derived
//! suffix, the digest of the name and the caller-supplied strings and file
//! contents, in order.

use vstd::prelude::*;
use vstd::slice::slice_to_vec;
use vstd::string::StrSliceExecFns;
use vstd::string::StringExecFns;
use vstd::utf8::encode_utf8;

verus! {

/// The hex digest the outside hash produces for given input bytes.
pub uninterp spec fn blake3_hex_of(bytes: Seq<u8>) -> Seq<char>;

/// A lowercase hexadecimal digit.
pub open spec fn spec_lower_hex_digit(c: char) -> bool {
    ('0' as int) <= (c as int) <= ('9' as int) || ('a' as int) <= (c as int) <= ('f' as int)
}

/// Relies on blake3::hash and Hash::to_hex: the digest is a function of the
/// input bytes alone, and its hex form is 64 lowercase hexadecimal digits,
/// two for each of the 32 digest bytes.
#[verifier::external_body]
fn blake3_hex(data: &Vec<u8>) -> (r: String)
    ensures
        r@ == blake3_hex_of(data@),
        r@.len() == 64,
        forall|i: int| 0 <= i < r@.len() ==> spec_lower_hex_digit(#[trigger] r@[i]),
{
    blake3::hash(data.as_slice()).to_hex().as_str().to_owned()
}

/// All the parts, joined in order.
pub open spec fn concat_all(parts: Seq<Seq<u8>>) -> Seq<u8>
    decreases parts.len(),
{
    if parts.len() == 0 {
        Seq::empty()
    } else {
        concat_all(parts.drop_last()) + parts.last()
    }
}

/// The bytes fed to the digest for a request: the key name, then each
/// caller-supplied string, then each named file's contents, in order.
pub open spec fn spec_key_material(
    key_name: Seq<char>,
    key_strs: Seq<Seq<char>>,
    key_files: Seq<Seq<u8>>,
) -> Seq<u8> {
    encode_utf8(key_name) + concat_all(key_strs.map_values(|s: Seq<char>| encode_utf8(s)))
        + concat_all(key_files)
}

/// The final cache key for a request: the key name and the digest of the
/// request's material, joined with a dash. Order of the strings and files is
/// significant; the name itself is salted into the digest. The suffix after
/// the dash is always 64 lowercase hexadecimal digits.
pub fn cache_key(key_name: &str, key_strs: &Vec<String>, key_files: &Vec<Vec<u8>>) -> (r: String)
    ensures
        r@ == key_name@ + seq!['-'] + blake3_hex_of(
            spec_key_material(
                key_name@,
                key_strs@.map_values(|s: String| s@),
                key_files@.map_values(|f: Vec<u8>| f@),
            ),
        ),
        r@.len() == key_name@.len() + 65,
        forall|i: int|
            key_name@.len() + 1 <= i < r@.len() ==> spec_lower_hex_digit(#[trigger] r@[i]),
{
    let mut material: Vec<u8> = key_name.as_bytes_vec();

    let n_strs = key_strs.len();
    let mut i: usize = 0;
    while i < n_strs
        invariant
            n_strs == key_strs@.len(),
            i <= n_strs,
            material@ == encode_utf8(key_name@) + concat_all(
                key_strs@.take(i as int).map_values(|s: String| encode_utf8(s@)),
            ),
        decreases n_strs - i,
    {
        let ghost parts = key_strs@.take(i as int).map_values(|s: String| encode_utf8(s@));
        let mut b = key_strs[i].as_str().as_bytes_vec();
        material.append(&mut b);
        proof {
            let parts2 = key_strs@.take(i + 1).map_values(|s: String| encode_utf8(s@));
            assert(parts2.drop_last() =~= parts);
            assert(parts2.last() == encode_utf8(key_strs@[i as int]@));
        }
        i += 1;
    }
    proof {
        assert(key_strs@.take(n_strs as int) =~= key_strs@);
        assert(key_strs@.map_values(|s: String| encode_utf8(s@)) =~= key_strs@.map_values(
            |s: String| s@,
        ).map_values(|s: Seq<char>| encode_utf8(s)));
    }

    let n_files = key_files.len();
    let ghost str_part = encode_utf8(key_name@) + concat_all(
        key_strs@.map_values(|s: String| encode_utf8(s@)),
    );
    let mut j: usize = 0;
    while j < n_files
        invariant
            n_files == key_files@.len(),
            j <= n_files,
            material@ == str_part + concat_all(
                key_files@.take(j as int).map_values(|f: Vec<u8>| f@),
            ),
        decreases n_files - j,
    {
        let ghost parts = key_files@.take(j as int).map_values(|f: Vec<u8>| f@);
        let mut b = slice_to_vec(key_files[j].as_slice());
        material.append(&mut b);
        proof {
            let parts2 = key_files@.take(j + 1).map_values(|f: Vec<u8>| f@);
            assert(parts2.drop_last() =~= parts);
            assert(parts2.last() == key_files@[j as int]@);
        }
        j += 1;
    }
    proof {
        assert(key_files@.take(n_files as int) =~= key_files@);
    }

    let digest = blake3_hex(&material);
    let mut out = key_name.to_owned();
    out.append("-");
    out.append(digest.as_str());
    proof {
        reveal_strlit("-");
        assert("-"@ =~= seq!['-']);
        assert(out@ =~= key_name@ + seq!['-'] + digest@);
        assert forall|i: int|
            key_name@.len() + 1 <= i < out@.len() implies spec_lower_hex_digit(
            #[trigger] out@[i],
        ) by {
            assert(out@[i] == digest@[i - key_name@.len() - 1]);
        }
    }
    out
}

} // verus!
