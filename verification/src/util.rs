//! Helpers shared by every parser of the crate: splitting a buffer at a
//! sentinel byte, and turning a SHA-1 digest into a content identifier.

use vstd::prelude::*;
use vstd::slice::slice_subrange;
use crate::error::{Error, ErrorView};
use crate::foreign::{new_git_raw_cid, sha1_code, sha1_size};
use crate::identifier::{git_cid, Cid, CidView, SHA1_LENGTH};

verus! {

/// The null byte, which ends an object header and the name of a tree entry.
pub const NUL: u8 = 0x00;

/// The line feed, which ends a commit header line.
pub const NEWLINE: u8 = 0x0a;

/// The space, which parts the fields of a header.
pub const SPACE: u8 = 0x20;

/// `i` is the position of the first occurrence of `val` in `s`.
pub open spec fn is_first_at(s: Seq<u8>, val: u8, i: int) -> bool {
    &&& 0 <= i < s.len()
    &&& s[i] == val
    &&& forall|j: int| 0 <= j < i ==> s[j] != val
}

/// The two parts of `s` around the first occurrence of `val`, which belongs to
/// neither of them; `None` when `val` does not occur in `s`.
pub open spec fn split_first(s: Seq<u8>, val: u8) -> Option<(Seq<u8>, Seq<u8>)> {
    if exists|i: int| is_first_at(s, val, i) {
        let i = choose|i: int| is_first_at(s, val, i);
        Some((s.subrange(0, i), s.subrange(i + 1, s.len() as int)))
    } else {
        None
    }
}

/// Splits `s` at the first element equal to `val`, leaving that element out.
/// The first part holds no `val`, and the two parts with `val` between them
/// make up `s`; where `val` does not occur, the result is `None`.
pub fn cleave_out_at_value<'a>(s: &'a [u8], val: u8) -> (r: Option<(&'a [u8], &'a [u8])>)
    ensures
        match r {
            Some((before, after)) => {
                &&& split_first(s@, val) == Some((before@, after@))
                &&& !before@.contains(val)
                &&& s@ == before@ + seq![val] + after@
            },
            None => split_first(s@, val) is None && !s@.contains(val),
        },
        r is Some <==> s@.contains(val),
{
    let mut i: usize = 0;
    while i < s.len()
        invariant
            i <= s.len(),
            forall|j: int| 0 <= j < i ==> s@[j] != val,
        decreases s.len() - i,
    {
        if s[i] == val {
            assert(is_first_at(s@, val, i as int));
            assert(s@.contains(s@[i as int]));
            let before = slice_subrange(s, 0, i);
            let after = slice_subrange(s, i + 1, s.len());
            proof {
                lemma_split_first_some(s@, val);
            }
            return Some((before, after));
        }
        i += 1;
    }
    proof {
        lemma_split_first_none(s@, val);
    }
    None
}

/// What a successful split says of its parts: the first holds no `val`, and
/// the two with `val` between them make up `s`.
pub proof fn lemma_split_first_some(s: Seq<u8>, val: u8)
    requires
        split_first(s, val) is Some,
    ensures
        ({
            let (before, after) = split_first(s, val).unwrap();
            &&& !before.contains(val)
            &&& s == before + seq![val] + after
            &&& is_first_at(s, val, before.len() as int)
        }),
{
    let (before, after) = split_first(s, val).unwrap();
    let i = choose|i: int| is_first_at(s, val, i);
    assert(before.len() == i);
    assert(s =~= before + seq![val] + after);
}

/// A split fails exactly when `val` does not occur.
pub proof fn lemma_split_first_none(s: Seq<u8>, val: u8)
    ensures
        split_first(s, val) is None <==> !s.contains(val),
{
    if s.contains(val) {
        let k = choose|k: int| 0 <= k < s.len() && s[k] == val;
        lemma_first_occurrence(s, val, k);
    } else {
        if exists|i: int| is_first_at(s, val, i) {
            let i = choose|i: int| is_first_at(s, val, i);
            assert(s.contains(s[i]));
        }
    }
}

/// Where `val` occurs at `k`, it occurs for the first time at or before `k`.
proof fn lemma_first_occurrence(s: Seq<u8>, val: u8, k: int)
    requires
        0 <= k < s.len(),
        s[k] == val,
    ensures
        exists|i: int| is_first_at(s, val, i) && i <= k,
    decreases k,
{
    if exists|j: int| 0 <= j < k && s[j] == val {
        let j = choose|j: int| 0 <= j < k && s[j] == val;
        lemma_first_occurrence(s, val, j);
    } else {
        assert(is_first_at(s, val, k));
    }
}

/// A buffer made of a part without `val`, then `val`, then anything, splits
/// into these two parts.
pub proof fn lemma_split_first_unique(before: Seq<u8>, val: u8, after: Seq<u8>)
    requires
        !before.contains(val),
    ensures
        split_first(before + seq![val] + after, val) == Some((before, after)),
{
    let s = before + seq![val] + after;
    let n = before.len() as int;
    assert forall|j: int| 0 <= j < n implies s[j] != val by {
        assert(s[j] == before[j]);
        assert(before.contains(before[j]));
    }
    assert(is_first_at(s, val, n));
    let i = choose|i: int| is_first_at(s, val, i);
    assert(i == n);
    assert(s.subrange(0, n) =~= before);
    assert(s.subrange(n + 1, s.len() as int) =~= after);
}

/// Bytes added behind a buffer that splits are added to the second part.
pub proof fn lemma_split_first_extend(s: Seq<u8>, val: u8, more: Seq<u8>)
    requires
        split_first(s, val) is Some,
    ensures
        ({
            let (before, after) = split_first(s, val).unwrap();
            split_first(s + more, val) == Some((before, after + more))
        }),
{
    let (before, after) = split_first(s, val).unwrap();
    lemma_split_first_some(s, val);
    lemma_split_first_unique(before, val, after + more);
    assert(s + more =~= before + seq![val] + (after + more));
}

/// Whether two byte slices hold the same bytes.
pub fn bytes_eq(a: &[u8], b: &[u8]) -> (r: bool)
    ensures
        r == (a@ == b@),
{
    if a.len() != b.len() {
        return false;
    }
    let mut i: usize = 0;
    while i < a.len()
        invariant
            a.len() == b.len(),
            i <= a.len(),
            forall|j: int| 0 <= j < i ==> a@[j] == b@[j],
        decreases a.len() - i,
    {
        if a[i] != b[i] {
            return false;
        }
        i += 1;
    }
    assert(a@ =~= b@);
    true
}

/// What [`sha1_to_cid`] gives for `digest`: the identifier that holds it, or
/// a failure that tells its length where that is not 20.
pub open spec fn cid_outcome(digest: Seq<u8>) -> Result<CidView, ErrorView> {
    if digest.len() == SHA1_LENGTH {
        Ok(git_cid(digest))
    } else {
        Err(ErrorView::InvalidDigestLength { actual: digest.len() as usize })
    }
}

/// Builds the content identifier of the git object whose SHA-1 digest is
/// `digest`: version 1, the raw git content type, and the multihash made of
/// the SHA-1 code, the digest length and the digest. A digest that is not 20
/// bytes long is refused.
pub fn sha1_to_cid(digest: &[u8]) -> (r: Result<Cid, Error>)
    ensures
        match r {
            Ok(cid) => cid_outcome(digest@) == Ok::<CidView, ErrorView>(cid@) && cid.wf(),
            Err(e) => cid_outcome(digest@) == Err::<CidView, ErrorView>(e@),
        },
        r is Ok <==> digest@.len() == SHA1_LENGTH,
{
    if digest.len() != 20 {
        return Err(Error::InvalidDigestLength { actual: digest.len() });
    }
    let code = sha1_code();
    let size = sha1_size();
    let mut mh: Vec<u8> = Vec::with_capacity(digest.len() + 2);
    mh.push(code);
    mh.push(size);
    mh.extend_from_slice(digest);
    assert(mh@ =~= git_cid(digest@).hash);
    Ok(new_git_raw_cid(mh.as_slice()))
}

} // verus!
