use std::cmp::Ordering;

use bftree_simd::prefix::{common_prefix_len_scalar, common_prefix_len_simd};
use bftree_simd::scan::first_mismatch;
use bftree_simd::{bytes_cmp, common_prefix_len};

#[test]
fn bytes_cmp_agrees_with_slice_order() {
    let cases: Vec<(&[u8], &[u8])> = vec![
        (b"", b""),
        (b"a", b""),
        (b"", b"a"),
        (b"abc", b"abd"),
        (b"abd", b"abc"),
        (b"abc", b"abcd"),
        (b"\xff", b"\x00\x00"),
        (b"0123456789abcdef0123456789abcdefZ", b"0123456789abcdef0123456789abcdefA"),
    ];
    for (a, b) in cases {
        assert_eq!(bytes_cmp(a, b), a.cmp(b));
    }
}

#[test]
fn bytes_cmp_equal_only_for_equal_slices() {
    let a = vec![4u8; 100];
    let mut b = a.clone();
    assert_eq!(bytes_cmp(&a, &b), Ordering::Equal);
    b[99] = 5;
    assert_ne!(bytes_cmp(&a, &b), Ordering::Equal);
}

#[test]
fn bytes_cmp_swapping_reverses() {
    let a = b"banana split";
    let b = b"banana bread";
    assert_eq!(bytes_cmp(a, b), Ordering::Greater);
    assert_eq!(bytes_cmp(b, a), Ordering::Less);
}

#[test]
fn bytes_cmp_is_transitive_on_example() {
    let a = b"apple";
    let b = b"apples";
    let c = b"apricot";
    assert_eq!(bytes_cmp(a, b), Ordering::Less);
    assert_eq!(bytes_cmp(b, c), Ordering::Less);
    assert_eq!(bytes_cmp(a, c), Ordering::Less);
}

#[test]
fn common_prefix_len_examples() {
    assert_eq!(common_prefix_len(b"hello", b"help"), 3);
    assert_eq!(common_prefix_len(b"help", b"hello"), 3);
    let a = vec![7u8; 40];
    let mut b = a.clone();
    b[33] = 0;
    assert_eq!(common_prefix_len(&a, &b), 33);
    assert_eq!(common_prefix_len(&a, &a[..20]), 20);
}

#[test]
fn common_prefix_len_wraps_beyond_u16() {
    let a = vec![1u8; 70000];
    assert_eq!(common_prefix_len(&a, &a), (70000u32 % 65536) as u16);
}

#[test]
fn common_prefix_len_scalar_examples() {
    assert_eq!(common_prefix_len_scalar(b"", b"abc"), 0);
    assert_eq!(common_prefix_len_scalar(b"abc", b"abc"), 3);
    assert_eq!(common_prefix_len_scalar(b"abcx", b"abcy"), 3);
    let a = vec![2u8; 300];
    assert_eq!(common_prefix_len_scalar(&a, &a), 300);
}

#[test]
fn first_mismatch_is_common_prefix_length() {
    let a = b"0123456789abcdef0123456789abcdefXYZ";
    let b = b"0123456789abcdef0123456789abcdefXYQ";
    assert_eq!(first_mismatch(a, b), Some(34));
    assert_eq!(common_prefix_len(a, b), 34);
    let c = b"0123456789";
    assert_eq!(first_mismatch(a, c), None);
    assert_eq!(common_prefix_len(a, c), 10);
}

#[test]
fn common_prefix_scalar_and_block_agree() {
    let a: Vec<u8> = (0..200u32).map(|i| (i * 7 % 256) as u8).collect();
    for cut in 0..200usize {
        let mut b = a.clone();
        b[cut] = b[cut].wrapping_add(1);
        assert_eq!(common_prefix_len_scalar(&a, &b), cut as u16);
        assert_eq!(common_prefix_len_simd(&a, &b), common_prefix_len_scalar(&a, &b));
    }
}
