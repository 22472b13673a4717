//! Byte-slice comparison helpers: the first position at which two byte
//! strings differ, the length of their common prefix, and their
//! lexicographic order. Blocks of bytes are summarised in an equality mask
//! or a machine word (built one byte per step), whose lowest set or clear
//! bit locates the first difference; every result is proved equal to the
//! byte-by-byte definition.
use std::cmp::Ordering;
use vstd::prelude::*;

pub mod spec;
pub mod scan;
pub mod prefix;
pub mod compare;
pub mod laws;

use crate::compare::{bytes_cmp_simd, lex_order};
use crate::prefix::common_prefix_len_simd;
use crate::spec::{agree_on, common_prefix_length};

verus! {

/// Lexicographic comparison of two byte slices: the smaller (unsigned) byte
/// at the first difference comes first, and a proper prefix comes before the
/// longer slice.
pub fn bytes_cmp(a: &[u8], b: &[u8]) -> (r: Ordering)
    ensures
        r == lex_order(a@, b@),
        forall|i: int|
            #![trigger a@[i], b@[i]]
            0 <= i < a@.len() && i < b@.len() && agree_on(a@, b@, 0, i) && a@[i] < b@[i]
                ==> r == Ordering::Less,
        forall|i: int|
            #![trigger a@[i], b@[i]]
            0 <= i < a@.len() && i < b@.len() && agree_on(a@, b@, 0, i) && a@[i] > b@[i]
                ==> r == Ordering::Greater,
        a@.len() < b@.len() && (forall|j: int| 0 <= j < a@.len() ==> a@[j] == b@[j])
            ==> r == Ordering::Less,
        b@.len() < a@.len() && (forall|j: int| 0 <= j < b@.len() ==> a@[j] == b@[j])
            ==> r == Ordering::Greater,
{
    bytes_cmp_simd(a, b)
}

/// Length of the longest common prefix of two byte slices, modulo 2^16.
pub fn common_prefix_len(a: &[u8], b: &[u8]) -> (r: u16)
    ensures
        r == common_prefix_length(a@, b@) as u16,
{
    common_prefix_len_simd(a, b)
}

} // verus!
