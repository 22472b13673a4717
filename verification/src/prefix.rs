//! Length of the longest common prefix of two byte slices.
use vstd::prelude::*;
use vstd::std_specs::bits::{u64_trailing_zeros, axiom_u64_trailing_zeros};
use crate::spec::{agree_on, common_prefix_length, is_common_prefix_len, shorter_len,
    lemma_common_prefix_length, lemma_agree_within_common_prefix};
use crate::scan::{equal_lanes_mask, lane_bit, lemma_empty_mask};

verus! {

/// Length of the longest common prefix of `a` and `b`, counted byte by
/// byte.
pub fn common_prefix_len_scalar(a: &[u8], b: &[u8]) -> (r: u16)
    requires
        common_prefix_length(a@, b@) <= u16::MAX,
    ensures
        r == common_prefix_length(a@, b@),
{
    let mut prefix_len: u16 = 0;
    let min_len: usize = if a.len() <= b.len() { a.len() } else { b.len() };
    let mut i: usize = 0;
    while i < min_len
        invariant
            i <= min_len,
            min_len == shorter_len(a@, b@),
            prefix_len == i,
            agree_on(a@, b@, 0, i as int),
            common_prefix_length(a@, b@) <= u16::MAX,
        ensures
            i <= min_len,
            prefix_len == i,
            agree_on(a@, b@, 0, i as int),
            i < min_len ==> a@[i as int] != b@[i as int],
        decreases min_len - i,
    {
        if a[i] == b[i] {
            proof {
                lemma_agree_within_common_prefix(a@, b@, i + 1);
            }
            prefix_len += 1;
        } else {
            break;
        }
        i += 1;
    }
    proof {
        lemma_common_prefix_length(a@, b@);
        assert(is_common_prefix_len(a@, b@, i as int));
    }
    prefix_len
}

proof fn lemma_block_mask(m: u64, t: u64, j: u64)
    by (bit_vector)
    requires
        m >> 16 == 0,
        m != 0xffff,
        t <= 64,
        (!m) << ((64 - t) as u64) == 0,
    ensures
        t < 16,
        j < 64 ==> ((!m) >> j) & 1 == 1 - ((m >> j) & 1),
{
}

proof fn lemma_full_block_mask(m: u64, j: u64)
    by (bit_vector)
    requires
        m == 0xffff,
        j < 16,
    ensures
        (m >> j) & 1 == 1,
{
}

/// Length of the longest common prefix of `a` and `b`, reported modulo 2^16.
/// Blocks of 16 bytes are checked through a 16-lane equality mask (filled
/// one lane per step), whose first clear bit gives the first differing byte;
/// the rest is compared byte by byte.
pub fn common_prefix_len_simd(a: &[u8], b: &[u8]) -> (r: u16)
    ensures
        r == common_prefix_length(a@, b@) as u16,
{
    let min_len: usize = if a.len() <= b.len() { a.len() } else { b.len() };

    if min_len < 16 {
        proof {
            lemma_common_prefix_length(a@, b@);
        }
        return common_prefix_len_scalar(a, b);
    }

    let mut prefix_len: usize = 0;

    while 16 <= min_len - prefix_len
        invariant
            prefix_len <= min_len,
            min_len == shorter_len(a@, b@),
            agree_on(a@, b@, 0, prefix_len as int),
        decreases min_len - prefix_len,
    {
        let mask = equal_lanes_mask(a, b, prefix_len, 16);

        if mask != 0xFFFF {
            let inv: u64 = !mask;
            let t: u32 = inv.trailing_zeros();
            proof {
                axiom_u64_trailing_zeros(inv);
                lemma_block_mask(mask, t as u64, t as u64);
                assert(lane_bit(mask, t as u64) == 0);
                assert forall|j: int| 0 <= j < prefix_len + t implies a@[j] == b@[j] by {
                    if j >= prefix_len {
                        let k = (j - prefix_len) as u64;
                        lemma_block_mask(mask, t as u64, k);
                        assert((inv >> k) & 1u64 == 0u64);
                        assert(lane_bit(mask, k) == 1);
                    }
                }
                lemma_common_prefix_length(a@, b@);
                assert(is_common_prefix_len(a@, b@, prefix_len + t));
            }
            let first_diff = t as usize;
            return (prefix_len + first_diff) as u16;
        }
        proof {
            assert forall|j: int| 0 <= j < prefix_len + 16 implies a@[j] == b@[j] by {
                if j >= prefix_len {
                    let k = (j - prefix_len) as u64;
                    lemma_full_block_mask(mask, k);
                    assert(lane_bit(mask, k) == 1);
                }
            }
        }
        prefix_len += 16;
    }

    while prefix_len < min_len
        invariant
            prefix_len <= min_len,
            min_len == shorter_len(a@, b@),
            agree_on(a@, b@, 0, prefix_len as int),
        decreases min_len - prefix_len,
    {
        if a[prefix_len] != b[prefix_len] {
            proof {
                lemma_common_prefix_length(a@, b@);
                assert(is_common_prefix_len(a@, b@, prefix_len as int));
            }
            return prefix_len as u16;
        }
        prefix_len += 1;
    }

    proof {
        lemma_common_prefix_length(a@, b@);
        assert(is_common_prefix_len(a@, b@, prefix_len as int));
    }
    prefix_len as u16
}

/// Byte `k` (counting from the least significant) of a 64-bit lane.
pub open spec fn lane_byte(w: u64, k: u64) -> u64 {
    (w >> (8 * k)) & 0xff
}

proof fn lemma_set_lane_byte(w: u64, k: u64, j: u64)
    by (bit_vector)
    requires
        k < 8,
        j < 8,
        w >> (8 * k) == 0,
    ensures
        ((w | (0xffu64 << (8 * k))) >> (8 * j)) & 0xff == (if j == k { 0xffu64 } else { (w >> (8 * j)) & 0xff }),
        k + 1 < 8 ==> (w | (0xffu64 << (8 * k))) >> (8 * k + 8) == 0,
        k + 1 < 8 ==> w >> (8 * k + 8) == 0,
        j >= k ==> (w >> (8 * j)) & 0xff == 0,
{
}

/// A 64-bit lane over the 8 bytes at `offset`: byte `k` is `0xff` where `a`
/// and `b` hold the same byte at `offset + k`, and `0` where they differ.
fn equal_bytes_lane(a: &[u8], b: &[u8], offset: usize) -> (w: u64)
    requires
        offset + 8 <= a@.len(),
        offset + 8 <= b@.len(),
    ensures
        forall|k: u64| k < 8 ==> #[trigger] lane_byte(w, k) == (if a@[offset + k] == b@[offset + k] { 0xffu64 } else { 0u64 }),
{
    let mut w: u64 = 0;
    let mut k: usize = 0;
    proof {
        lemma_empty_mask();
    }
    while k < 8
        invariant
            k <= 8,
            offset + 8 <= a.len(),
            offset + 8 <= b.len(),
            k < 8 ==> w >> (8 * (k as u64)) == 0,
            forall|j: u64| j < k ==> #[trigger] lane_byte(w, j) == (if a@[offset + j] == b@[offset + j] { 0xffu64 } else { 0u64 }),
        decreases 8 - k,
    {
        let ghost old_w = w;
        if a[offset + k] == b[offset + k] {
            w = w | (0xffu64 << (8 * (k as u64)));
        }
        proof {
            assert forall|j: u64| j < k + 1 implies #[trigger] lane_byte(w, j) == (if a@[offset + j] == b@[offset + j] { 0xffu64 } else { 0u64 }) by {
                lemma_set_lane_byte(old_w, k as u64, j);
                if j < k {
                    assert(lane_byte(old_w, j) == (if a@[offset + j] == b@[offset + j] { 0xffu64 } else { 0u64 }));
                }
            }
            lemma_set_lane_byte(old_w, k as u64, 0);
        }
        k = k + 1;
    }
    w
}

proof fn lemma_lane_first_clear_byte(w: u64, t: u64, k: u64)
    by (bit_vector)
    requires
        t <= 64,
        (!w) << ((64 - t) as u64) == 0,
        8 * k + 8 <= t,
    ensures
        (w >> (8 * k)) & 0xff == 0xff,
{
}

proof fn lemma_lane_clear_byte_at(w: u64, t: u64)
    by (bit_vector)
    requires
        t < 64,
        ((!w) >> t) & 1 == 1,
    ensures
        (w >> (8 * (t / 8))) & 0xff != 0xff,
{
}

proof fn lemma_lane_not_full(w: u64)
    by (bit_vector)
    requires
        w != 0xffff_ffff_ffff_ffffu64,
    ensures
        !w != 0,
{
}

proof fn lemma_full_lane_byte(k: u64)
    by (bit_vector)
    requires
        k < 8,
    ensures
        (0xffff_ffff_ffff_ffffu64 >> (8 * k)) & 0xff == 0xff,
{
}

/// In a lane whose bytes are `0xff` exactly where `a` and `b` agree and that
/// is not all ones, the trailing zeros of its complement, divided by 8, give
/// the first byte at which `a` and `b` differ.
proof fn lemma_lane_first_mismatch(a: Seq<u8>, b: Seq<u8>, offset: int, w: u64, t: u64)
    requires
        0 <= offset,
        offset + 8 <= a.len(),
        offset + 8 <= b.len(),
        forall|k: u64| k < 8 ==> #[trigger] lane_byte(w, k) == (if a[offset + k] == b[offset + k] { 0xffu64 } else { 0u64 }),
        w != 0xffff_ffff_ffff_ffffu64,
        t == u64_trailing_zeros(!w),
    ensures
        t / 8 < 8,
        agree_on(a, b, offset, offset + t / 8),
        a[offset + t / 8] != b[offset + t / 8],
{
    axiom_u64_trailing_zeros(!w);
    lemma_lane_not_full(w);
    lemma_lane_clear_byte_at(w, t);
    assert(lane_byte(w, t / 8) != 0xff);
    assert forall|j: int| offset <= j < offset + t / 8 implies a[j] == b[j] by {
        let k = (j - offset) as u64;
        lemma_lane_first_clear_byte(w, t, k);
        assert(lane_byte(w, k) == 0xff);
    }
}

/// Length of the longest common prefix of `a` and `b`, reported modulo 2^16.
/// Blocks of 16 bytes are compared as two 64-bit lanes whose bytes are
/// `0xff` where the inputs agree; the first lane that is not all ones gives
/// the first differing byte. The lanes are filled one byte per step.
pub fn common_prefix_len_simd_u64_lanes(a: &[u8], b: &[u8]) -> (r: u16)
    ensures
        r == common_prefix_length(a@, b@) as u16,
{
    let min_len: usize = if a.len() <= b.len() { a.len() } else { b.len() };

    if min_len < 16 {
        proof {
            lemma_common_prefix_length(a@, b@);
        }
        return common_prefix_len_scalar(a, b);
    }

    let mut prefix_len: usize = 0;

    while 16 <= min_len - prefix_len
        invariant
            prefix_len <= min_len,
            min_len == shorter_len(a@, b@),
            agree_on(a@, b@, 0, prefix_len as int),
        decreases min_len - prefix_len,
    {
        let low = equal_bytes_lane(a, b, prefix_len);
        let high = equal_bytes_lane(a, b, prefix_len + 8);

        if low != u64::MAX {
            let t: u32 = (!low).trailing_zeros();
            proof {
                lemma_lane_first_mismatch(a@, b@, prefix_len as int, low, t as u64);
                lemma_common_prefix_length(a@, b@);
                assert(is_common_prefix_len(a@, b@, prefix_len + t / 8));
            }
            let first_diff = t as usize / 8;
            return (prefix_len + first_diff) as u16;
        }
        proof {
            assert forall|j: int| prefix_len <= j < prefix_len + 8 implies a@[j] == b@[j] by {
                let k = (j - prefix_len) as u64;
                lemma_full_lane_byte(k);
                assert(lane_byte(low, k) == 0xff);
            }
        }
        if high != u64::MAX {
            let t: u32 = (!high).trailing_zeros();
            proof {
                lemma_lane_first_mismatch(a@, b@, prefix_len + 8, high, t as u64);
                lemma_common_prefix_length(a@, b@);
                assert(is_common_prefix_len(a@, b@, prefix_len + 8 + t / 8));
            }
            let first_diff = 8 + t as usize / 8;
            return (prefix_len + first_diff) as u16;
        }
        proof {
            assert forall|j: int| prefix_len + 8 <= j < prefix_len + 16 implies a@[j] == b@[j] by {
                let k = (j - prefix_len - 8) as u64;
                lemma_full_lane_byte(k);
                assert(lane_byte(high, k) == 0xff);
            }
        }
        prefix_len += 16;
    }

    while prefix_len < min_len
        invariant
            prefix_len <= min_len,
            min_len == shorter_len(a@, b@),
            agree_on(a@, b@, 0, prefix_len as int),
        decreases min_len - prefix_len,
    {
        if a[prefix_len] != b[prefix_len] {
            proof {
                lemma_common_prefix_length(a@, b@);
                assert(is_common_prefix_len(a@, b@, prefix_len as int));
            }
            return prefix_len as u16;
        }
        prefix_len += 1;
    }

    proof {
        lemma_common_prefix_length(a@, b@);
        assert(is_common_prefix_len(a@, b@, prefix_len as int));
    }
    prefix_len as u16
}

} // verus!
