//! Mathematical model of byte strings: agreement on a range of indices,
//! the first index where two strings differ, and the length of their
//! common prefix.
use vstd::prelude::*;

verus! {

/// The shorter of the two lengths.
pub open spec fn shorter_len(a: Seq<u8>, b: Seq<u8>) -> int {
    if a.len() <= b.len() {
        a.len() as int
    } else {
        b.len() as int
    }
}

/// `a` and `b` hold the same byte at every index in `lo..hi`.
pub open spec fn agree_on(a: Seq<u8>, b: Seq<u8>, lo: int, hi: int) -> bool {
    forall|j: int| lo <= j < hi ==> a[j] == b[j]
}

/// `r` is the outcome of scanning `lo..hi` for the first index at which
/// `a` and `b` differ: `Some(i)` for the first such index, `None` when
/// the two agree on the whole range.
pub open spec fn is_first_mismatch_in(a: Seq<u8>, b: Seq<u8>, lo: int, hi: int, r: Option<usize>) -> bool {
    match r {
        Some(i) => lo <= i < hi && agree_on(a, b, lo, i as int) && a[i as int] != b[i as int],
        None => agree_on(a, b, lo, hi),
    }
}

/// `n` is the length of the longest common prefix of `a` and `b`: the two
/// agree below `n`, and `n` is either the shorter length or an index at
/// which they differ.
pub open spec fn is_common_prefix_len(a: Seq<u8>, b: Seq<u8>, n: int) -> bool {
    &&& 0 <= n <= shorter_len(a, b)
    &&& agree_on(a, b, 0, n)
    &&& n < shorter_len(a, b) ==> a[n] != b[n]
}

/// Length of the longest common prefix of `a` and `b`.
pub open spec fn common_prefix_length(a: Seq<u8>, b: Seq<u8>) -> int {
    choose|n: int| is_common_prefix_len(a, b, n)
}

proof fn lemma_common_prefix_from(a: Seq<u8>, b: Seq<u8>, i: int)
    requires
        0 <= i <= shorter_len(a, b),
        agree_on(a, b, 0, i),
    ensures
        exists|n: int| is_common_prefix_len(a, b, n),
    decreases shorter_len(a, b) - i,
{
    if i == shorter_len(a, b) || a[i] != b[i] {
        assert(is_common_prefix_len(a, b, i));
    } else {
        lemma_common_prefix_from(a, b, i + 1);
    }
}

/// Every pair of byte strings has exactly one common prefix length, and
/// `common_prefix_length` is it.
pub proof fn lemma_common_prefix_length(a: Seq<u8>, b: Seq<u8>)
    ensures
        is_common_prefix_len(a, b, common_prefix_length(a, b)),
        forall|n: int| is_common_prefix_len(a, b, n) ==> n == common_prefix_length(a, b),
{
    lemma_common_prefix_from(a, b, 0);
    let c = common_prefix_length(a, b);
    assert forall|n: int| is_common_prefix_len(a, b, n) implies n == c by {
        if n < c {
            assert(a[n] == b[n]);
        } else if c < n {
            assert(a[c] == b[c]);
        }
    }
}

/// Strings that agree below `k` share a prefix at least `k` long.
pub proof fn lemma_agree_within_common_prefix(a: Seq<u8>, b: Seq<u8>, k: int)
    requires
        0 <= k <= shorter_len(a, b),
        agree_on(a, b, 0, k),
    ensures
        k <= common_prefix_length(a, b),
{
    lemma_common_prefix_length(a, b);
    let c = common_prefix_length(a, b);
    if c < k {
        assert(a[c] == b[c]);
    }
}

/// The first index at which two strings differ, searched from the start up
/// to the shorter length, is their common prefix length; when there is
/// none, the common prefix is the whole of the shorter string.
pub proof fn lemma_first_mismatch_is_common_prefix(a: Seq<u8>, b: Seq<u8>, r: Option<usize>)
    requires
        is_first_mismatch_in(a, b, 0, shorter_len(a, b), r),
    ensures
        r matches Some(i) ==> i < shorter_len(a, b) && common_prefix_length(a, b) == i,
        r is None ==> common_prefix_length(a, b) == shorter_len(a, b),
{
    lemma_common_prefix_length(a, b);
    match r {
        Some(i) => {
            assert(is_common_prefix_len(a, b, i as int));
        },
        None => {
            assert(is_common_prefix_len(a, b, shorter_len(a, b)));
        },
    }
}

} // verus!
