//! Lexicographic comparison of byte slices.
use std::cmp::Ordering;
use vstd::prelude::*;
use crate::spec::{agree_on, common_prefix_length, lemma_first_mismatch_is_common_prefix};
use crate::laws::lemma_lex_order_by_bytes;
use crate::scan::first_mismatch;

verus! {

/// Lexicographic order of byte strings: the byte at the first index where
/// they differ decides; when one is a prefix of the other, the shorter one
/// comes first.
pub open spec fn lex_order(a: Seq<u8>, b: Seq<u8>) -> Ordering {
    let n = common_prefix_length(a, b);
    if n < a.len() && n < b.len() {
        if a[n] < b[n] {
            Ordering::Less
        } else {
            Ordering::Greater
        }
    } else if a.len() < b.len() {
        Ordering::Less
    } else if a.len() == b.len() {
        Ordering::Equal
    } else {
        Ordering::Greater
    }
}

/// Lexicographic comparison of `a` and `b`, located by the first mismatch:
/// the smaller (unsigned) byte at the first difference comes first, and a
/// proper prefix comes before the longer slice.
pub fn bytes_cmp_simd(a: &[u8], b: &[u8]) -> (r: Ordering)
    ensures
        r == lex_order(a@, b@),
        forall|i: int|
            #![trigger a@[i], b@[i]]
            0 <= i < a@.len() && i < b@.len() && agree_on(a@, b@, 0, i) && a@[i] < b@[i]
                ==> r == Ordering::Less,
        forall|i: int|
            #![trigger a@[i], b@[i]]
            0 <= i < a@.len() && i < b@.len() && agree_on(a@, b@, 0, i) && a@[i] > b@[i]
                ==> r == Ordering::Greater,
        a@.len() < b@.len() && (forall|j: int| 0 <= j < a@.len() ==> a@[j] == b@[j])
            ==> r == Ordering::Less,
        b@.len() < a@.len() && (forall|j: int| 0 <= j < b@.len() ==> a@[j] == b@[j])
            ==> r == Ordering::Greater,
{
    let found = first_mismatch(a, b);
    proof {
        lemma_first_mismatch_is_common_prefix(a@, b@, found);
        lemma_lex_order_by_bytes(a@, b@);
    }
    if let Some(idx) = found {
        let x = a[idx];
        let y = b[idx];
        return if x < y {
            Ordering::Less
        } else if x == y {
            Ordering::Equal
        } else {
            Ordering::Greater
        };
    }

    if a.len() < b.len() {
        Ordering::Less
    } else if a.len() == b.len() {
        Ordering::Equal
    } else {
        Ordering::Greater
    }
}

} // verus!
