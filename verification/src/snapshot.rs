//! SHA-256 snapshots for incremental indexing.
//!
//! A snapshot maps source-file paths to the lower-case hexadecimal SHA-256
//! digests of their contents.  Diffing the live tree against the last
//! snapshot gives the files that are new, modified or deleted, so unchanged
//! files skip extraction entirely.  A snapshot is held as a list of
//! `(path, digest)` pairs with distinct paths.

use vstd::prelude::*;
use crate::text::{chars_to_string, digit_char, digit_char_exec, str_chars, str_eq, trim, trim_chars};

verus! {

/// The paths of a snapshot are distinct.
pub open spec fn distinct_keys(s: Seq<(String, String)>) -> bool {
    forall|i: int, j: int| 0 <= i < j < s.len() ==> (#[trigger] s[i]).0@ != (#[trigger] s[j]).0@
}

/// Some entry of `s` has path `k`.
pub open spec fn has_path(s: Seq<(String, String)>, k: Seq<char>) -> bool {
    exists|i: int| 0 <= i < s.len() && (#[trigger] s[i]).0@ == k
}

/// The digest recorded for path `k`.
pub open spec fn digest_of(s: Seq<(String, String)>, k: Seq<char>) -> Seq<char> {
    s[choose|i: int| 0 <= i < s.len() && (#[trigger] s[i]).0@ == k].1@
}

/// A snapshot as a map from path to digest.
pub open spec fn snapshot_map(s: Seq<(String, String)>) -> Map<Seq<char>, Seq<char>> {
    Map::new(|k: Seq<char>| has_path(s, k), |k: Seq<char>| digest_of(s, k))
}

/// The texts of a sequence of strings.
pub open spec fn names(v: Seq<String>) -> Seq<Seq<char>> {
    v.map_values(|s: String| s@)
}

/// The paths that are new, modified or deleted from `old` to `current`:
/// those in exactly one of the two, or in both with different digests.
pub open spec fn changed_paths(
    old: Map<Seq<char>, Seq<char>>,
    current: Map<Seq<char>, Seq<char>>,
) -> Set<Seq<char>> {
    Set::new(
        |k: Seq<char>|
            (current.contains_key(k) && !(old.contains_key(k) && old[k] == current[k])) || (
            old.contains_key(k) && !current.contains_key(k)),
    )
}

fn find_path(s: &[(String, String)], k: &str) -> (r: Option<usize>)
    ensures
        match r {
            Some(i) => i < s@.len() && s@[i as int].0@ == k@,
            None => !has_path(s@, k@),
        },
{
    let mut i: usize = 0;
    while i < s.len()
        invariant
            i <= s@.len(),
            forall|j: int| 0 <= j < i ==> (#[trigger] s@[j]).0@ != k@,
        decreases s@.len() - i,
    {
        if str_eq(s[i].0.as_str(), k) {
            return Some(i);
        }
        i = i + 1;
    }
    None
}

proof fn lemma_digest_at(s: Seq<(String, String)>, i: int)
    requires
        distinct_keys(s),
        0 <= i < s.len(),
    ensures
        has_path(s, s[i].0@),
        digest_of(s, s[i].0@) == s[i].1@,
{
    let k = s[i].0@;
    assert(has_path(s, k));
    let j = choose|j: int| 0 <= j < s.len() && (#[trigger] s[j]).0@ == k;
    if j != i {
        if j < i {
            assert(s[j].0@ != s[i].0@);
        } else {
            assert(s[i].0@ != s[j].0@);
        }
    }
}

/// The paths that are new, modified or deleted relative to `old`, each
/// once: first the new and modified ones in the order of `current`, then the
/// deleted ones in the order of `old`.
pub fn diff_hashes(old: &[(String, String)], current: &[(String, String)]) -> (r: Vec<String>)
    requires
        distinct_keys(old@),
        distinct_keys(current@),
    ensures
        names(r@).to_set() == changed_paths(
            snapshot_map(old@),
            snapshot_map(current@),
        ),
        names(r@).no_duplicates(),
{
    let ghost om = snapshot_map(old@);
    let ghost cm = snapshot_map(current@);
    let mut out: Vec<String> = Vec::new();
    let mut i: usize = 0;
    while i < current.len()
        invariant
            i <= current@.len(),
            om == snapshot_map(old@),
            cm == snapshot_map(current@),
            distinct_keys(old@),
            distinct_keys(current@),
            names(out@).no_duplicates(),
            forall|k: Seq<char>| #[trigger]
                names(out@).contains(k) <==> (exists|j: int|
                    0 <= j < i && (#[trigger] current@[j]).0@ == k) && changed_paths(om, cm).contains(k),
        decreases current@.len() - i,
    {
        let p = &current[i].0;
        let d = &current[i].1;
        proof {
            lemma_digest_at(current@, i as int);
        }
        let changed = match find_path(old, p.as_str()) {
            None => true,
            Some(j) => {
                proof {
                    lemma_digest_at(old@, j as int);
                }
                !str_eq(old[j].1.as_str(), d.as_str())
            },
        };
        assert(changed == changed_paths(om, cm).contains(p@));
        let ghost before = names(out@);
        if changed {
            out.push(p.clone());
            proof {
                assert(names(out@) =~= before.push(p@));
                assert(!before.contains(p@)) by {
                    if before.contains(p@) {
                        let j = choose|j: int| 0 <= j < i && (#[trigger] current@[j]).0@ == p@;
                        assert(current@[j].0@ != current@[i as int].0@);
                    }
                }
            }
        }
        proof {
            let after = names(out@);
            assert forall|k: Seq<char>| #[trigger] after.contains(k) <==> (exists|j: int|
                0 <= j < i + 1 && (#[trigger] current@[j]).0@ == k) && changed_paths(om, cm).contains(
                k,
            ) by {
                if after.contains(k) && k != p@ {
                    assert(before.contains(k)) by {
                        let a = choose|a: int| 0 <= a < after.len() && after[a] == k;
                        if changed {
                            assert(a < before.len());
                            assert(before[a] == k);
                        }
                    }
                }
                if k == p@ && changed {
                    assert(after[after.len() - 1] == k);
                }
                if (exists|j: int| 0 <= j < i + 1 && (#[trigger] current@[j]).0@ == k)
                    && changed_paths(om, cm).contains(k) && k != p@ {
                    let j = choose|j: int| 0 <= j < i + 1 && (#[trigger] current@[j]).0@ == k;
                    assert(j < i);
                    assert(before.contains(k));
                    if changed {
                        let a = choose|a: int| 0 <= a < before.len() && before[a] == k;
                        assert(after[a] == k);
                    }
                }
            }
        }
        i = i + 1;
    }
    let mut j: usize = 0;
    while j < old.len()
        invariant
            j <= old@.len(),
            om == snapshot_map(old@),
            cm == snapshot_map(current@),
            distinct_keys(old@),
            distinct_keys(current@),
            names(out@).no_duplicates(),
            forall|k: Seq<char>| #[trigger]
                names(out@).contains(k) <==> ((has_path(current@, k) || exists|
                    a: int,
                | 0 <= a < j && (#[trigger] old@[a]).0@ == k) && changed_paths(om, cm).contains(k)),
        decreases old@.len() - j,
    {
        let p = &old[j].0;
        let ghost before = names(out@);
        let deleted = find_path(current, p.as_str()).is_none();
        proof {
            lemma_digest_at(old@, j as int);
        }
        assert(deleted ==> changed_paths(om, cm).contains(p@));
        if deleted {
            out.push(p.clone());
            proof {
                assert(names(out@) =~= before.push(p@));
                assert(!before.contains(p@)) by {
                    if before.contains(p@) {
                        let a = choose|a: int| 0 <= a < j && (#[trigger] old@[a]).0@ == p@;
                        assert(old@[a].0@ != old@[j as int].0@);
                    }
                }
            }
        }
        proof {
            let after = names(out@);
            assert forall|k: Seq<char>| #[trigger] after.contains(k) <==> ((has_path(current@, k)
                || exists|a: int| 0 <= a < j + 1 && (#[trigger] old@[a]).0@ == k) && changed_paths(
                om,
                cm,
            ).contains(k)) by {
                if after.contains(k) && k != p@ {
                    assert(before.contains(k)) by {
                        let a = choose|a: int| 0 <= a < after.len() && after[a] == k;
                        if deleted {
                            assert(a < before.len());
                            assert(before[a] == k);
                        }
                    }
                }
                if k == p@ && deleted {
                    assert(after[after.len() - 1] == k);
                }
                if k == p@ && !deleted && changed_paths(om, cm).contains(k) {
                    assert(has_path(current@, k));
                }
                if (has_path(current@, k) || exists|a: int|
                    0 <= a < j + 1 && (#[trigger] old@[a]).0@ == k) && changed_paths(om, cm).contains(
                    k,
                ) && k != p@ {
                    if !has_path(current@, k) {
                        let a = choose|a: int| 0 <= a < j + 1 && (#[trigger] old@[a]).0@ == k;
                        assert(a < j);
                    }
                    assert(before.contains(k));
                    if deleted {
                        let a = choose|a: int| 0 <= a < before.len() && before[a] == k;
                        assert(after[a] == k);
                    }
                }
            }
        }
        j = j + 1;
    }
    proof {
        let res = names(out@);
        assert forall|k: Seq<char>| res.to_set().contains(k) == changed_paths(om, cm).contains(k) by {
            if changed_paths(om, cm).contains(k) && !has_path(current@, k) {
                assert(om.contains_key(k));
                let a = choose|a: int| 0 <= a < old@.len() && (#[trigger] old@[a]).0@ == k;
            }
        }
        assert(res.to_set() =~= changed_paths(om, cm));
    }
    out
}

/// Nothing changed between a snapshot and itself.
pub proof fn lemma_diff_self_empty(m: Map<Seq<char>, Seq<char>>)
    ensures
        changed_paths(m, m) == Set::<Seq<char>>::empty(),
{
    assert(changed_paths(m, m) =~= Set::<Seq<char>>::empty());
}

/// The changed paths do not depend on the direction of the comparison.
pub proof fn lemma_diff_symmetric(a: Map<Seq<char>, Seq<char>>, b: Map<Seq<char>, Seq<char>>)
    ensures
        changed_paths(a, b) == changed_paths(b, a),
{
    assert(changed_paths(a, b) =~= changed_paths(b, a));
}

/// A path is unchanged exactly when both snapshots record it with the same
/// digest, or neither records it.
pub proof fn lemma_unchanged_iff_same_digest(
    a: Map<Seq<char>, Seq<char>>,
    b: Map<Seq<char>, Seq<char>>,
    k: Seq<char>,
)
    ensures
        !changed_paths(a, b).contains(k) <==> ((a.contains_key(k) && b.contains_key(k) && a[k]
            == b[k]) || (!a.contains_key(k) && !b.contains_key(k))),
{
}

// ---------------------------------------------------------------------------
// Digests
// ---------------------------------------------------------------------------

/// The SHA-256 digest of a byte sequence.
pub uninterp spec fn sha256(data: Seq<u8>) -> Seq<u8>;

/// `Sha256::digest(data)` as a byte vector: the 32-byte SHA-256 digest of
/// `data` (a function of the bytes alone; the output size is that of the
/// algorithm).
#[verifier::external_body]
fn sha256_digest(data: &[u8]) -> (d: Vec<u8>)
    ensures
        d@ == sha256(data@),
        d@.len() == 32,
{
    <sha2::Sha256 as sha2::Digest>::digest(data).to_vec()
}

/// The two lower-case hexadecimal digits of a byte.
pub open spec fn byte_hex(b: u8) -> Seq<char> {
    seq![digit_char((b / 16) as nat), digit_char((b % 16) as nat)]
}

/// Two lower-case hexadecimal digits per byte, in order (the `{:x}` format
/// of a digest).
pub open spec fn bytes_hex(bs: Seq<u8>) -> Seq<char>
    decreases bs.len(),
{
    if bs.len() == 0 {
        Seq::empty()
    } else {
        bytes_hex(bs.drop_last()) + byte_hex(bs.last())
    }
}

/// The lower-case hexadecimal SHA-256 digest of a byte sequence.
pub open spec fn sha256_hex(data: Seq<u8>) -> Seq<char> {
    bytes_hex(sha256(data))
}

fn hex_of_bytes(bs: &[u8]) -> (s: Vec<char>)
    ensures
        s@ == bytes_hex(bs@),
{
    let mut v: Vec<char> = Vec::new();
    let mut i: usize = 0;
    while i < bs.len()
        invariant
            i <= bs@.len(),
            v@ == bytes_hex(bs@.subrange(0, i as int)),
        decreases bs@.len() - i,
    {
        let b = bs[i];
        let hi = digit_char_exec((b / 16) as u64);
        let lo = digit_char_exec((b % 16) as u64);
        v.push(hi);
        v.push(lo);
        assert(bs@.subrange(0, i + 1).drop_last() =~= bs@.subrange(0, i as int));
        assert(v@ =~= bytes_hex(bs@.subrange(0, i as int)) + byte_hex(b));
        i = i + 1;
    }
    assert(bs@.subrange(0, bs@.len() as int) =~= bs@);
    v
}

/// The digest recorded for a file's contents.
pub fn file_digest(contents: &[u8]) -> (s: String)
    ensures
        s@ == sha256_hex(contents@),
{
    let d = sha256_digest(contents);
    let h = hex_of_bytes(d.as_slice());
    chars_to_string(h.as_slice())
}

/// Records `(path, digest)`, replacing an earlier digest of the same path.
pub fn snapshot_insert(s: &mut Vec<(String, String)>, path: String, digest: String)
    requires
        distinct_keys(old(s)@),
    ensures
        distinct_keys(final(s)@),
        snapshot_map(final(s)@) == snapshot_map(old(s)@).insert(path@, digest@),
{
    let ghost s0 = s@;
    let ghost k = path@;
    let ghost v = digest@;
    match find_path(s.as_slice(), path.as_str()) {
        Some(i) => {
            s.set(i, (path, digest));
            proof {
                let s1 = s@;
                assert(distinct_keys(s1)) by {
                    assert forall|a: int, b: int| 0 <= a < b < s1.len() implies (#[trigger] s1[a]).0@
                        != (#[trigger] s1[b]).0@ by {
                        assert(s0[a].0@ != s0[b].0@);
                        assert(s1[i as int].0@ == s0[i as int].0@);
                        if a != i && b != i {
                            assert(s1[a] == s0[a] && s1[b] == s0[b]);
                        } else if a == i {
                            assert(s1[b] == s0[b]);
                        } else {
                            assert(s1[a] == s0[a]);
                        }
                    }
                }
                assert forall|q: Seq<char>| #[trigger] has_path(s1, q) == (has_path(s0, q) || q == k) by {
                    if has_path(s1, q) {
                        let a = choose|a: int| 0 <= a < s1.len() && (#[trigger] s1[a]).0@ == q;
                        if a != i {
                            assert(s0[a] == s1[a]);
                        }
                    }
                    if has_path(s0, q) {
                        let a = choose|a: int| 0 <= a < s0.len() && (#[trigger] s0[a]).0@ == q;
                        if a != i {
                            assert(s1[a] == s0[a]);
                        } else {
                            assert(s1[a].0@ == q);
                        }
                    }
                    if q == k {
                        assert(s1[i as int].0@ == q);
                    }
                }
                assert forall|q: Seq<char>| has_path(s1, q) implies #[trigger] digest_of(s1, q) == (
                if q == k {
                    v
                } else {
                    digest_of(s0, q)
                }) by {
                    let a = choose|a: int| 0 <= a < s1.len() && (#[trigger] s1[a]).0@ == q;
                    lemma_digest_at(s1, a);
                    if q == k {
                        assert(a == i);
                    } else {
                        assert(a != i);
                        assert(s0[a] == s1[a]);
                        lemma_digest_at(s0, a);
                    }
                }
                assert(snapshot_map(s1) =~= snapshot_map(s0).insert(k, v));
            }
        },
        None => {
            s.push((path, digest));
            proof {
                let s1 = s@;
                assert(distinct_keys(s1)) by {
                    assert forall|a: int, b: int| 0 <= a < b < s1.len() implies (#[trigger] s1[a]).0@
                        != (#[trigger] s1[b]).0@ by {
                        if b < s0.len() {
                            assert(s1[a] == s0[a] && s1[b] == s0[b]);
                        } else {
                            assert(s1[a] == s0[a]);
                            assert(s1[b].0@ == k);
                        }
                    }
                }
                assert forall|q: Seq<char>| #[trigger] has_path(s1, q) == (has_path(s0, q) || q == k) by {
                    if has_path(s1, q) {
                        let a = choose|a: int| 0 <= a < s1.len() && (#[trigger] s1[a]).0@ == q;
                        if a < s0.len() {
                            assert(s0[a] == s1[a]);
                        }
                    }
                    if has_path(s0, q) {
                        let a = choose|a: int| 0 <= a < s0.len() && (#[trigger] s0[a]).0@ == q;
                        assert(s1[a] == s0[a]);
                    }
                    if q == k {
                        assert(s1[s1.len() - 1].0@ == q);
                    }
                }
                assert forall|q: Seq<char>| has_path(s1, q) implies #[trigger] digest_of(s1, q) == (
                if q == k {
                    v
                } else {
                    digest_of(s0, q)
                }) by {
                    let a = choose|a: int| 0 <= a < s1.len() && (#[trigger] s1[a]).0@ == q;
                    lemma_digest_at(s1, a);
                    if q != k {
                        assert(a < s0.len());
                        assert(s0[a] == s1[a]);
                        lemma_digest_at(s0, a);
                    } else {
                        assert(a == s1.len() - 1);
                    }
                }
                assert(snapshot_map(s1) =~= snapshot_map(s0).insert(k, v));
            }
        },
    }
}

/// The snapshot of a set of files given with their contents, in order, a
/// later file replacing an earlier one of the same path.
pub fn file_hashes(files: &[(String, Vec<u8>)]) -> (r: Vec<(String, String)>)
    ensures
        distinct_keys(r@),
        forall|k: Seq<char>| #[trigger] snapshot_map(r@).contains_key(k) <==> exists|i: int|
            0 <= i < files@.len() && (#[trigger] files@[i]).0@ == k,
{
    let mut out: Vec<(String, String)> = Vec::new();
    let mut i: usize = 0;
    assert(snapshot_map(out@) =~= Map::<Seq<char>, Seq<char>>::empty());
    while i < files.len()
        invariant
            i <= files@.len(),
            distinct_keys(out@),
            forall|k: Seq<char>| #[trigger] snapshot_map(out@).contains_key(k) <==> exists|j: int|
                0 <= j < i && (#[trigger] files@[j]).0@ == k,
        decreases files@.len() - i,
    {
        let d = file_digest(files[i].1.as_slice());
        let ghost before = snapshot_map(out@);
        snapshot_insert(&mut out, files[i].0.clone(), d);
        proof {
            assert forall|k: Seq<char>| #[trigger] snapshot_map(out@).contains_key(k) <==> exists|
                j: int,
            | 0 <= j < i + 1 && (#[trigger] files@[j]).0@ == k by {
                if snapshot_map(out@).contains_key(k) && k != files@[i as int].0@ {
                    assert(before.contains_key(k));
                }
                if exists|j: int| 0 <= j < i + 1 && (#[trigger] files@[j]).0@ == k {
                    let j = choose|j: int| 0 <= j < i + 1 && (#[trigger] files@[j]).0@ == k;
                    if j < i {
                        assert(before.contains_key(k));
                    }
                }
            }
        }
        i = i + 1;
    }
    out
}

/// Why a downloaded file is refused.
#[derive(Debug, Clone, PartialEq, Eq)]
pub struct DigestMismatch {
    pub expected: String,
    pub actual: String,
}

/// `str::to_lowercase`: the Unicode lower-case mapping of a text.
pub uninterp spec fn lowercase(s: Seq<char>) -> Seq<char>;

/// `str::to_lowercase` (the full Unicode mapping, a function of the text
/// alone).
#[verifier::external_body]
pub(crate) fn to_lowercase(s: &str) -> (r: String)
    ensures
        r@ == lowercase(s@),
{
    s.to_lowercase()
}

/// Checks bytes against an expected hexadecimal SHA-256 digest, compared
/// after trimming and lower-casing the expectation.
pub fn verify_sha256(data: &[u8], expected: &str) -> (r: Result<(), DigestMismatch>)
    ensures
        r is Ok <==> sha256_hex(data@) == lowercase(trim(expected@)),
        r matches Err(e) ==> e.expected@ == expected@ && e.actual@ == sha256_hex(data@),
{
    let actual = file_digest(data);
    let ev = str_chars(expected);
    let t = trim_chars(ev.as_slice());
    let ts = chars_to_string(t.as_slice());
    let want = to_lowercase(ts.as_str());
    if str_eq(actual.as_str(), want.as_str()) {
        Ok(())
    } else {
        Err(DigestMismatch { expected: String::from_str(expected), actual })
    }
}

} // verus!
