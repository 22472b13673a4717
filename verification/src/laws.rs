//! Properties of the lexicographic order and of common prefixes that hold
//! for all inputs.
use std::cmp::Ordering;
use vstd::prelude::*;
use crate::spec::{agree_on, common_prefix_length, is_common_prefix_len, shorter_len,
    lemma_common_prefix_length};
use crate::compare::lex_order;

verus! {

/// The byte at the first difference decides the order: if `a` and `b` agree
/// below `i` and differ at `i`, then `a` comes first exactly when its byte
/// there is the smaller one (bytes compared as unsigned values).
pub proof fn lemma_lex_order_first_difference_decides(a: Seq<u8>, b: Seq<u8>, i: int)
    requires
        0 <= i < a.len(),
        i < b.len(),
        forall|j: int| 0 <= j < i ==> a[j] == b[j],
        a[i] != b[i],
    ensures
        a[i] < b[i] ==> lex_order(a, b) == Ordering::Less,
        a[i] > b[i] ==> lex_order(a, b) == Ordering::Greater,
{
    lemma_common_prefix_length(a, b);
    assert(is_common_prefix_len(a, b, i));
}

/// A proper prefix comes before every longer string that extends it, and
/// after it in the other direction.
pub proof fn lemma_lex_order_proper_prefix_first(a: Seq<u8>, b: Seq<u8>)
    requires
        a.len() < b.len(),
        forall|j: int| 0 <= j < a.len() ==> a[j] == b[j],
    ensures
        lex_order(a, b) == Ordering::Less,
        lex_order(b, a) == Ordering::Greater,
{
    lemma_common_prefix_length(a, b);
    lemma_common_prefix_length(b, a);
    assert(is_common_prefix_len(a, b, shorter_len(a, b)));
    assert(is_common_prefix_len(b, a, shorter_len(b, a)));
}

/// The order of two byte strings, read off their bytes: at the first index
/// where they differ the smaller (unsigned) byte comes first, and a proper
/// prefix comes before the longer string.
pub proof fn lemma_lex_order_by_bytes(a: Seq<u8>, b: Seq<u8>)
    ensures
        forall|i: int|
            #![trigger a[i], b[i]]
            0 <= i < a.len() && i < b.len() && agree_on(a, b, 0, i) && a[i] < b[i]
                ==> lex_order(a, b) == Ordering::Less,
        forall|i: int|
            #![trigger a[i], b[i]]
            0 <= i < a.len() && i < b.len() && agree_on(a, b, 0, i) && a[i] > b[i]
                ==> lex_order(a, b) == Ordering::Greater,
        a.len() < b.len() && (forall|j: int| 0 <= j < a.len() ==> a[j] == b[j])
            ==> lex_order(a, b) == Ordering::Less,
        b.len() < a.len() && (forall|j: int| 0 <= j < b.len() ==> a[j] == b[j])
            ==> lex_order(a, b) == Ordering::Greater,
{
    assert forall|i: int|
        #![trigger a[i], b[i]]
        0 <= i < a.len() && i < b.len() && agree_on(a, b, 0, i) && a[i] != b[i]
        implies (a[i] < b[i] ==> lex_order(a, b) == Ordering::Less)
            && (a[i] > b[i] ==> lex_order(a, b) == Ordering::Greater) by {
        lemma_lex_order_first_difference_decides(a, b, i);
    }
    if a.len() < b.len() && (forall|j: int| 0 <= j < a.len() ==> a[j] == b[j]) {
        lemma_lex_order_proper_prefix_first(a, b);
    }
    if b.len() < a.len() && (forall|j: int| 0 <= j < b.len() ==> a[j] == b[j]) {
        lemma_lex_order_proper_prefix_first(b, a);
    }
}

/// The common prefix length is `n` exactly when the strings agree on every
/// index below `n` and, at `n`, one of them has ended or their bytes differ.
pub proof fn lemma_common_prefix_by_bytes(a: Seq<u8>, b: Seq<u8>, n: int)
    requires
        0 <= n <= a.len(),
        n <= b.len(),
        forall|j: int| 0 <= j < n ==> a[j] == b[j],
        n == a.len() || n == b.len() || a[n] != b[n],
    ensures
        common_prefix_length(a, b) == n,
{
    lemma_common_prefix_length(a, b);
    assert(is_common_prefix_len(a, b, n));
}

/// The common prefix of `a` and `b` is the common prefix of `b` and `a`.
pub proof fn lemma_common_prefix_symmetric(a: Seq<u8>, b: Seq<u8>)
    ensures
        common_prefix_length(a, b) == common_prefix_length(b, a),
        0 <= common_prefix_length(a, b) <= shorter_len(a, b),
{
    lemma_common_prefix_length(a, b);
    lemma_common_prefix_length(b, a);
    assert(is_common_prefix_len(b, a, common_prefix_length(a, b)));
}

/// A string shares all of itself with itself.
pub proof fn lemma_common_prefix_self(a: Seq<u8>)
    ensures
        common_prefix_length(a, a) == a.len(),
{
    lemma_common_prefix_length(a, a);
    assert(is_common_prefix_len(a, a, a.len() as int));
}

/// Two strings compare equal exactly when they are the same string.
pub proof fn lemma_lex_order_equal_iff(a: Seq<u8>, b: Seq<u8>)
    ensures
        (lex_order(a, b) == Ordering::Equal) <==> a == b,
{
    lemma_common_prefix_length(a, b);
    let n = common_prefix_length(a, b);
    if lex_order(a, b) == Ordering::Equal {
        assert(a.len() == b.len());
        assert(n == a.len());
        assert(a =~= b);
    }
    if a == b {
        lemma_common_prefix_self(a);
    }
}

/// Swapping the operands reverses the order.
pub proof fn lemma_lex_order_antisymmetric(a: Seq<u8>, b: Seq<u8>)
    ensures
        (lex_order(a, b) == Ordering::Less) <==> (lex_order(b, a) == Ordering::Greater),
        (lex_order(a, b) == Ordering::Equal) <==> (lex_order(b, a) == Ordering::Equal),
        (lex_order(a, b) == Ordering::Greater) <==> (lex_order(b, a) == Ordering::Less),
{
    lemma_common_prefix_symmetric(a, b);
    lemma_common_prefix_length(a, b);
}

/// The order is transitive.
pub proof fn lemma_lex_order_transitive(a: Seq<u8>, b: Seq<u8>, c: Seq<u8>)
    requires
        lex_order(a, b) == Ordering::Less,
        lex_order(b, c) == Ordering::Less,
    ensures
        lex_order(a, c) == Ordering::Less,
{
    lemma_common_prefix_length(a, b);
    lemma_common_prefix_length(b, c);
    lemma_common_prefix_length(a, c);
    let n1 = common_prefix_length(a, b);
    let n2 = common_prefix_length(b, c);
    if n1 < n2 {
        if n1 < a.len() {
            assert(is_common_prefix_len(a, c, n1));
        } else {
            assert(is_common_prefix_len(a, c, shorter_len(a, c)));
        }
    } else if n2 < n1 {
        assert(is_common_prefix_len(a, c, n2));
    } else {
        if n1 < a.len() {
            assert(is_common_prefix_len(a, c, n1));
        } else {
            assert(is_common_prefix_len(a, c, shorter_len(a, c)));
        }
    }
}

/// A common prefix length of at most `u16::MAX` is unchanged by the cast to
/// `u16`. The block-wise prefix counts return the cast length and the
/// byte-by-byte count returns the length itself, so by their contracts the
/// two agree wherever the byte-by-byte count is defined.
pub proof fn lemma_prefix_counts_agree(a: Seq<u8>, b: Seq<u8>)
    requires
        common_prefix_length(a, b) <= u16::MAX,
    ensures
        common_prefix_length(a, b) as u16 == common_prefix_length(a, b),
{
    lemma_common_prefix_symmetric(a, b);
    assert(0 <= common_prefix_length(a, b));
}

} // verus!
