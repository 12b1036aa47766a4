//! Byte-string primitives: equality, substring search, and suffix tests.
//!
//! Every textual value the resolver handles (socket responses, command
//! lines, terminal-device paths, session names) is carried as a `Vec<u8>`
//! and modelled as a `Seq<u8>`, so the contracts below are the vocabulary
//! the rest of the library speaks.

use vstd::prelude::*;

verus! {

/// `needle` occurs as a contiguous run inside `hay` starting at index `i`.
pub open spec fn occurs_at(hay: Seq<u8>, needle: Seq<u8>, i: int) -> bool {
    0 <= i && i + needle.len() <= hay.len() && hay.subrange(i, i + needle.len()) == needle
}

/// `needle` occurs as a contiguous run somewhere inside `hay`.
pub open spec fn contains_seq(hay: Seq<u8>, needle: Seq<u8>) -> bool {
    exists|i: int| occurs_at(hay, needle, i)
}

/// `prefix` is a (not necessarily strict) prefix of `whole`.
pub open spec fn is_prefix_of(prefix: Seq<u8>, whole: Seq<u8>) -> bool {
    prefix.len() <= whole.len() && whole.subrange(0, prefix.len() as int) == prefix
}

/// `suffix` is a (not necessarily strict) suffix of `whole`.
pub open spec fn is_suffix_of(suffix: Seq<u8>, whole: Seq<u8>) -> bool {
    suffix.len() <= whole.len() && whole.subrange(
        whole.len() - suffix.len(),
        whole.len() as int,
    ) == suffix
}

/// Byte-for-byte equality of two byte strings.
pub fn bytes_eq(a: &Vec<u8>, b: &Vec<u8>) -> (r: bool)
    ensures
        r == (a@ == b@),
{
    if a.len() != b.len() {
        return false;
    }
    let mut i: usize = 0;
    while i < a.len()
        invariant
            a.len() == b.len(),
            i <= a.len(),
            forall|k: int| 0 <= k < i ==> a@[k] == b@[k],
        decreases a.len() - i,
    {
        if a[i] != b[i] {
            return false;
        }
        i = i + 1;
    }
    proof {
        assert(a@ =~= b@);
    }
    true
}

/// Copies a byte string; the resolver hands copies across state-machine
/// steps so that contracts can speak of the same abstract value twice.
pub fn copy_bytes(a: &Vec<u8>) -> (r: Vec<u8>)
    ensures
        r@ == a@,
{
    let mut out: Vec<u8> = Vec::new();
    let mut i: usize = 0;
    while i < a.len()
        invariant
            i <= a.len(),
            out@ == a@.subrange(0, i as int),
        decreases a.len() - i,
    {
        out.push(a[i]);
        proof {
            assert(out@ =~= a@.subrange(0, i + 1 as int));
        }
        i = i + 1;
    }
    proof {
        assert(a@.subrange(0, a@.len() as int) =~= a@);
    }
    out
}

/// Byte-for-byte equality of a byte string and a slice.
pub fn eq_slice(a: &Vec<u8>, b: &[u8]) -> (r: bool)
    ensures
        r == (a@ == b@),
{
    if a.len() != b.len() {
        return false;
    }
    let mut i: usize = 0;
    while i < a.len()
        invariant
            a@.len() == b@.len(),
            i <= a@.len(),
            forall|k: int| 0 <= k < i ==> a@[k] == b@[k],
        decreases a@.len() - i,
    {
        if a[i] != b[i] {
            return false;
        }
        i = i + 1;
    }
    proof {
        assert(a@ =~= b@);
    }
    true
}

/// Copies the range `[a, b)` of a byte string.
pub fn copy_range(s: &Vec<u8>, a: usize, b: usize) -> (r: Vec<u8>)
    requires
        a <= b <= s@.len(),
    ensures
        r@ == s@.subrange(a as int, b as int),
{
    let mut out: Vec<u8> = Vec::new();
    let mut i: usize = a;
    while i < b
        invariant
            a <= i <= b <= s@.len(),
            out@ == s@.subrange(a as int, i as int),
        decreases b - i,
    {
        out.push(s[i]);
        proof {
            assert(out@ =~= s@.subrange(a as int, i + 1 as int));
        }
        i = i + 1;
    }
    out
}

/// Prefix test: does `whole` start with `prefix`?
pub fn starts_with_bytes(whole: &Vec<u8>, prefix: &Vec<u8>) -> (r: bool)
    ensures
        r == is_prefix_of(prefix@, whole@),
{
    if prefix.len() > whole.len() {
        return false;
    }
    let mut k: usize = 0;
    while k < prefix.len()
        invariant
            prefix@.len() <= whole@.len(),
            k <= prefix@.len(),
            forall|j: int| 0 <= j < k ==> whole@[j] == prefix@[j],
        decreases prefix.len() - k,
    {
        if whole[k] != prefix[k] {
            proof {
                assert(whole@.subrange(0, prefix@.len() as int) != prefix@) by {
                    assert(whole@.subrange(0, prefix@.len() as int)[k as int] == whole@[k as int]);
                }
            }
            return false;
        }
        k = k + 1;
    }
    proof {
        assert(whole@.subrange(0, prefix@.len() as int) =~= prefix@);
    }
    true
}

/// `needle` matches `hay` at position `i` (all positions already checked
/// are equal).
fn matches_at(hay: &Vec<u8>, needle: &Vec<u8>, i: usize) -> (r: bool)
    requires
        i + needle@.len() <= hay@.len(),
    ensures
        r == occurs_at(hay@, needle@, i as int),
{
    proof {
        assert(hay@.len() == hay.len());
    }
    let mut k: usize = 0;
    while k < needle.len()
        invariant
            i + needle@.len() <= hay@.len(),
            hay@.len() <= usize::MAX,
            k <= needle@.len(),
            forall|j: int| 0 <= j < k ==> hay@[i + j] == needle@[j],
        decreases needle.len() - k,
    {
        if hay[i + k] != needle[k] {
            proof {
                assert(hay@.subrange(i as int, i + needle@.len()) != needle@) by {
                    assert(hay@.subrange(i as int, i + needle@.len())[k as int] == hay@[i + k]);
                }
            }
            return false;
        }
        k = k + 1;
    }
    proof {
        assert(hay@.subrange(i as int, i + needle@.len()) =~= needle@);
    }
    true
}

/// Substring search: does `needle` occur anywhere inside `hay`?
pub fn contains_bytes(hay: &Vec<u8>, needle: &Vec<u8>) -> (r: bool)
    ensures
        r == contains_seq(hay@, needle@),
{
    if needle.len() > hay.len() {
        return false;
    }
    if needle.len() == 0 {
        proof {
            assert(hay@.subrange(0, 0) =~= needle@);
            assert(occurs_at(hay@, needle@, 0));
        }
        return true;
    }
    let mut i: usize = 0;
    let last = hay.len() - needle.len();
    while i <= last
        invariant
            0 < needle@.len() <= hay@.len(),
            hay@.len() <= usize::MAX,
            last == hay@.len() - needle@.len(),
            i <= last + 1,
            forall|j: int| 0 <= j < i ==> !occurs_at(hay@, needle@, j),
        decreases last + 1 - i,
    {
        if matches_at(hay, needle, i) {
            return true;
        }
        i = i + 1;
    }
    false
}

/// Suffix test: is `suffix` a suffix of `whole`?
pub fn ends_with_bytes(whole: &Vec<u8>, suffix: &Vec<u8>) -> (r: bool)
    ensures
        r == is_suffix_of(suffix@, whole@),
{
    if suffix.len() > whole.len() {
        return false;
    }
    let start = whole.len() - suffix.len();
    let mut k: usize = 0;
    while k < suffix.len()
        invariant
            suffix@.len() <= whole@.len(),
            whole@.len() <= usize::MAX,
            start == whole@.len() - suffix@.len(),
            k <= suffix@.len(),
            forall|j: int| 0 <= j < k ==> whole@[start + j] == suffix@[j],
        decreases suffix.len() - k,
    {
        if whole[start + k] != suffix[k] {
            proof {
                assert(whole@.subrange(start as int, whole@.len() as int) != suffix@) by {
                    assert(whole@.subrange(start as int, whole@.len() as int)[k as int]
                        == whole@[start + k]);
                }
            }
            return false;
        }
        k = k + 1;
    }
    proof {
        assert(whole@.subrange(start as int, whole@.len() as int) =~= suffix@);
    }
    true
}

} // verus!
