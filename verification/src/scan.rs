//! Search for the first index at which two byte slices differ.
use vstd::prelude::*;
use vstd::std_specs::bits::axiom_u64_trailing_zeros;
use crate::spec::{agree_on, is_first_mismatch_in, shorter_len};

verus! {

/// Number of bytes in a machine word.
pub const WORD_BYTES: usize = (usize::BITS / 8) as usize;

/// Byte `k` (counting from the least significant) of a machine word.
pub open spec fn word_byte(w: usize, k: usize) -> usize {
    (w >> (8 * k)) & 0xff
}

proof fn lemma_trailing_zeros_fits(x: usize, t: u64)
    by (bit_vector)
    requires
        t < 64,
        ((x as u64) >> t) & 1 == 1,
    ensures
        t < usize::BITS,
{
}

proof fn lemma_low_bytes_zero(x: usize, t: u64, k: usize)
    by (bit_vector)
    requires
        t <= 64,
        (x as u64) << ((64 - t) as u64) == 0,
        8 * k + 8 <= t,
        8 * k < usize::BITS,
    ensures
        (x >> (8 * k)) & 0xff == 0,
{
}

proof fn lemma_byte_at_trailing_zeros(x: usize, t: u64)
    by (bit_vector)
    requires
        t < usize::BITS,
        ((x as u64) >> t) & 1 == 1,
    ensures
        (x >> (8 * (t / 8))) & 0xff != 0,
{
}

proof fn lemma_zero_word_bytes(k: usize)
    by (bit_vector)
    ensures
        (0usize >> (8 * k)) & 0xff == 0,
        0usize >> (8 * k) == 0,
{
}

proof fn lemma_word_bytes_bits()
    ensures
        8 * WORD_BYTES == usize::BITS,
{
}

/// Index of the first (least significant) nonzero byte of `diff`, or the
/// number of bytes in a word when `diff` is zero.
pub fn first_diff_byte_in_word(diff: usize) -> (r: usize)
    ensures
        r <= WORD_BYTES,
        r == WORD_BYTES <==> diff == 0,
        forall|k: usize| k < r ==> word_byte(diff, k) == 0,
        r < WORD_BYTES ==> word_byte(diff, r) != 0,
{
    let x: u64 = diff as u64;
    let t64: u32 = x.trailing_zeros();
    proof {
        axiom_u64_trailing_zeros(x);
    }
    let t: u32 = if t64 > usize::BITS { usize::BITS } else { t64 };
    let r: usize = (t / 8) as usize;
    proof {
        if diff == 0 {
            assert forall|k: usize| k < r implies word_byte(diff, k) == 0 by {
                lemma_zero_word_bytes(k);
            }
        } else {
            lemma_trailing_zeros_fits(diff, t64 as u64);
            assert forall|k: usize| k < r implies word_byte(diff, k) == 0 by {
                lemma_low_bytes_zero(diff, t64 as u64, k);
            }
            lemma_byte_at_trailing_zeros(diff, t64 as u64);
        }
    }
    r
}

proof fn lemma_or_byte(w: usize, v: usize, k: usize, j: usize)
    by (bit_vector)
    requires
        v < 256,
        8 * k < usize::BITS,
        w >> (8 * k) == 0,
        8 * j < usize::BITS,
    ensures
        j != k ==> ((w | (v << (8 * k))) >> (8 * j)) & 0xff == (w >> (8 * j)) & 0xff,
        ((w | (v << (8 * k))) >> (8 * k)) & 0xff == v,
        8 * k + 8 < usize::BITS ==> (w | (v << (8 * k))) >> (8 * k + 8) == 0,
{
}

proof fn lemma_xor_byte(x: usize, y: usize, k: usize)
    by (bit_vector)
    ensures
        ((x ^ y) >> (8 * k)) & 0xff == ((x >> (8 * k)) & 0xff) ^ ((y >> (8 * k)) & 0xff),
{
}

proof fn lemma_xor_zero(x: usize, y: usize)
    by (bit_vector)
    requires
        x < 256,
        y < 256,
    ensures
        (x ^ y == 0) <==> x == y,
{
}

/// The machine word whose byte `k` is `s[offset + k]` (least significant
/// byte first).
fn load_word(s: &[u8], offset: usize) -> (w: usize)
    requires
        offset + WORD_BYTES <= s@.len(),
    ensures
        forall|k: usize| k < WORD_BYTES ==> word_byte(w, k) == s@[offset + k] as usize,
{
    let mut w: usize = 0;
    let mut k: usize = 0;
    proof {
        lemma_word_bytes_bits();
        lemma_zero_word_bytes(0);
    }
    while k < WORD_BYTES
        invariant
            k <= WORD_BYTES,
            8 * WORD_BYTES == usize::BITS,
            offset + WORD_BYTES <= s.len(),
            8 * k < usize::BITS ==> w >> (8 * k) == 0,
            forall|j: usize| j < k ==> word_byte(w, j) == s@[offset + j] as usize,
        decreases WORD_BYTES - k,
    {
        let v: usize = s[offset + k] as usize;
        let ghost old_w = w;
        w = w | (v << (8 * k));
        proof {
            assert forall|j: usize| j < k + 1 implies word_byte(w, j) == s@[offset + j] as usize by {
                assert(8 * j < usize::BITS);
                assert(old_w >> (8 * k) == 0);
                lemma_or_byte(old_w, v, k, j);
                if j < k {
                    assert(word_byte(old_w, j) == s@[offset + j] as usize);
                    assert(word_byte(w, j) == word_byte(old_w, j));
                } else {
                    assert(word_byte(w, j) == v);
                }
            }
            lemma_or_byte(old_w, v, k, k);
        }
        k = k + 1;
    }
    w
}

/// First index in `offset..min_len` at which `a` and `b` differ. Each step
/// packs the next word's worth of bytes of `a` and of `b` into two words
/// (one byte per step) and locates the first differing byte in their xor;
/// the remaining bytes are compared one by one.
pub fn scalar_mismatch_from(a: &[u8], b: &[u8], offset: usize, min_len: usize) -> (r: Option<usize>)
    requires
        min_len <= a@.len(),
        min_len <= b@.len(),
    ensures
        is_first_mismatch_in(a@, b@, offset as int, min_len as int, r),
{
    let mut pos = offset;
    while pos <= min_len && WORD_BYTES <= min_len - pos
        invariant
            offset <= pos,
            pos <= offset || pos <= min_len,
            min_len <= a@.len(),
            min_len <= b@.len(),
            agree_on(a@, b@, offset as int, pos as int),
        decreases min_len - pos,
    {
        let a_word = load_word(a, pos);
        let b_word = load_word(b, pos);
        let diff = a_word ^ b_word;

        if diff != 0 {
            let first = first_diff_byte_in_word(diff);
            proof {
                assert forall|j: int| offset <= j < pos + first implies a@[j] == b@[j] by {
                    if j >= pos {
                        let k = (j - pos) as usize;
                        assert(word_byte(diff, k) == 0);
                        lemma_xor_byte(a_word, b_word, k);
                        lemma_xor_zero(word_byte(a_word, k), word_byte(b_word, k));
                    }
                }
                assert(word_byte(diff, first) != 0);
                lemma_xor_byte(a_word, b_word, first);
                lemma_xor_zero(word_byte(a_word, first), word_byte(b_word, first));
            }
            return Some(pos + first);
        }
        proof {
            assert forall|j: int| offset <= j < pos + WORD_BYTES implies a@[j] == b@[j] by {
                if j >= pos {
                    let k = (j - pos) as usize;
                    lemma_zero_word_bytes(k);
                    assert(word_byte(diff, k) == 0);
                    lemma_xor_byte(a_word, b_word, k);
                    lemma_xor_zero(word_byte(a_word, k), word_byte(b_word, k));
                }
            }
        }
        pos += WORD_BYTES;
    }

    while pos < min_len
        invariant
            offset <= pos,
            min_len <= a@.len(),
            min_len <= b@.len(),
            agree_on(a@, b@, offset as int, pos as int),
        decreases min_len - pos,
    {
        if a[pos] != b[pos] {
            return Some(pos);
        }
        pos += 1;
    }

    None
}

/// Bit `j` of a lane mask.
pub open spec fn lane_bit(mask: u64, j: u64) -> u64 {
    (mask >> j) & 1
}

proof fn lemma_set_lane_bit(m: u64, i: u64, j: u64)
    by (bit_vector)
    requires
        i < 64,
        j < 64,
        m >> i == 0,
    ensures
        ((m | (1u64 << i)) >> j) & 1 == (if j == i { 1u64 } else { (m >> j) & 1 }),
        i + 1 < 64 ==> (m | (1u64 << i)) >> (i + 1) == 0,
        i + 1 < 64 ==> m >> (i + 1) == 0,
        j >= i ==> (m >> j) & 1 == 0,
{
}

proof fn lemma_shifted_one_positive(l: u64)
    by (bit_vector)
    requires
        l < 64,
    ensures
        (1u64 << l) >= 1,
{
}

pub(crate) proof fn lemma_empty_mask()
    by (bit_vector)
    ensures
        0u64 >> 0u64 == 0,
{
}

/// Lane mask of a block of `lanes` bytes starting at `offset`: bit `j` is
/// set exactly when `a` and `b` hold the same byte at `offset + j`.
pub(crate) fn equal_lanes_mask(a: &[u8], b: &[u8], offset: usize, lanes: usize) -> (mask: u64)
    requires
        1 <= lanes <= 64,
        offset + lanes <= a@.len(),
        offset + lanes <= b@.len(),
    ensures
        lanes < 64 ==> mask >> (lanes as u64) == 0,
        forall|j: u64|
            j < lanes ==> (#[trigger] lane_bit(mask, j) == 1 <==> a@[offset + j] == b@[offset + j]),
{
    let mut mask: u64 = 0;
    let mut i: usize = 0;
    proof {
        lemma_empty_mask();
    }
    while i < lanes
        invariant
            i <= lanes <= 64,
            offset + lanes <= a.len(),
            offset + lanes <= b.len(),
            i < 64 ==> mask >> (i as u64) == 0,
            forall|j: u64|
                j < i ==> (#[trigger] lane_bit(mask, j) == 1 <==> a@[offset + j] == b@[offset + j]),
        decreases lanes - i,
    {
        let ghost old_mask = mask;
        if a[offset + i] == b[offset + i] {
            mask = mask | (1u64 << (i as u64));
        }
        proof {
            assert forall|j: u64| j < i + 1 implies (#[trigger] lane_bit(mask, j) == 1
                <==> a@[offset + j] == b@[offset + j]) by {
                lemma_set_lane_bit(old_mask, i as u64, j);
                if j < i {
                    assert(lane_bit(old_mask, j) == 1 <==> a@[offset + j] == b@[offset + j]);
                }
            }
            lemma_set_lane_bit(old_mask, i as u64, 0);
        }
        i = i + 1;
    }
    mask
}

proof fn lemma_all_equal_mask(m: u64, all: u64, l: u64, j: u64)
    by (bit_vector)
    requires
        1 <= l <= 64,
        l < 64 ==> all == (1u64 << l) - 1,
        l == 64 ==> all == 0xffff_ffff_ffff_ffffu64,
        l < 64 ==> m >> l == 0,
        j < 64,
    ensures
        ((all >> j) & 1 == 1) == (j < l),
        ((!m & all) >> j) & 1 == (if j < l { 1 - ((m >> j) & 1) } else { 0 }),
        (!m & all) == 0 ==> m == all,
{
}

/// First index below `LANES` at which `a` and `b` differ: a mask of the
/// first `LANES` lanes, bit `j` set where the bytes agree (filled one lane
/// per step), whose lowest clear bit is the answer.
pub fn chunk_mismatch_offset<const LANES: usize>(a: &[u8], b: &[u8]) -> (r: Option<usize>)
    requires
        1 <= LANES <= 64,
        LANES <= a@.len(),
        LANES <= b@.len(),
    ensures
        is_first_mismatch_in(a@, b@, 0, LANES as int, r),
{
    let mask = equal_lanes_mask(a, b, 0, LANES);
    let all_equal: u64 = if LANES == 64 {
        u64::MAX
    } else {
        proof {
            lemma_shifted_one_positive(LANES as u64);
        }
        (1u64 << (LANES as u64)) - 1
    };
    proof {
        lemma_all_equal_mask(mask, all_equal, LANES as u64, 0);
    }

    if mask == all_equal {
        proof {
            assert forall|j: int| 0 <= j < LANES implies a@[j] == b@[j] by {
                lemma_all_equal_mask(mask, all_equal, LANES as u64, j as u64);
                assert(lane_bit(mask, j as u64) == 1);
            }
        }
        None
    } else {
        let d: u64 = !mask & all_equal;
        let t: u32 = d.trailing_zeros();
        proof {
            axiom_u64_trailing_zeros(d);
            lemma_all_equal_mask(mask, all_equal, LANES as u64, t as u64);
            assert(lane_bit(mask, t as u64) == 0);
            assert forall|j: int| 0 <= j < t implies a@[j] == b@[j] by {
                lemma_all_equal_mask(mask, all_equal, LANES as u64, j as u64);
                assert((d >> (j as u64)) & 1u64 == 0u64);
                assert(lane_bit(mask, j as u64) == 1);
            }
        }
        Some(t as usize)
    }
}

/// A block search on the tails of `a` and `b` from `offset`, where the two
/// agree before `offset`: a difference at `i` in the block is the first
/// difference at `offset + i` overall, and no difference extends the
/// agreement over the whole block.
proof fn lemma_chunk_step(a: Seq<u8>, b: Seq<u8>, offset: int, lanes: int, r: Option<usize>)
    requires
        0 <= offset,
        offset + lanes <= a.len(),
        offset + lanes <= b.len(),
        agree_on(a, b, 0, offset),
        is_first_mismatch_in(a.subrange(offset, a.len() as int), b.subrange(offset, b.len() as int), 0, lanes, r),
    ensures
        r matches Some(i) ==> i < lanes && agree_on(a, b, 0, offset + i) && a[offset + i] != b[offset + i],
        r is None ==> agree_on(a, b, 0, offset + lanes),
{
    let a_rest = a.subrange(offset, a.len() as int);
    let b_rest = b.subrange(offset, b.len() as int);
    let hi = match r {
        Some(i) => i as int,
        None => lanes,
    };
    assert forall|j: int| 0 <= j < offset + hi implies a[j] == b[j] by {
        if j >= offset {
            assert(a_rest[j - offset] == b_rest[j - offset]);
        }
    }
    if let Some(i) = r {
        assert(a_rest[i as int] == a[offset + i]);
        assert(b_rest[i as int] == b[offset + i]);
    }
}

/// First index below `min_len` at which `a` and `b` differ, checking blocks
/// of 32 lanes, then blocks of 16 lanes through `chunk_mismatch_offset`, and
/// the rest through `scalar_mismatch_from`.
pub fn first_mismatch_portable_simd(a: &[u8], b: &[u8], min_len: usize) -> (r: Option<usize>)
    requires
        min_len <= a@.len(),
        min_len <= b@.len(),
    ensures
        is_first_mismatch_in(a@, b@, 0, min_len as int, r),
{
    let mut offset: usize = 0;

    while 32 <= min_len - offset
        invariant
            offset <= min_len,
            min_len <= a@.len(),
            min_len <= b@.len(),
            agree_on(a@, b@, 0, offset as int),
        decreases min_len - offset,
    {
        let a_rest = &a[offset..a.len()];
        let b_rest = &b[offset..b.len()];
        let found = chunk_mismatch_offset::<32>(a_rest, b_rest);
        proof {
            lemma_chunk_step(a@, b@, offset as int, 32, found);
        }
        if let Some(first_diff) = found {
            return Some(offset + first_diff);
        }
        offset += 32;
    }

    while 16 <= min_len - offset
        invariant
            offset <= min_len,
            min_len <= a@.len(),
            min_len <= b@.len(),
            agree_on(a@, b@, 0, offset as int),
        decreases min_len - offset,
    {
        let a_rest = &a[offset..a.len()];
        let b_rest = &b[offset..b.len()];
        let found = chunk_mismatch_offset::<16>(a_rest, b_rest);
        proof {
            lemma_chunk_step(a@, b@, offset as int, 16, found);
        }
        if let Some(first_diff) = found {
            return Some(offset + first_diff);
        }
        offset += 16;
    }

    let r = scalar_mismatch_from(a, b, offset, min_len);
    r
}

/// First index at which `a` and `b` differ, below the shorter of the two
/// lengths; `None` when one is a prefix of the other.
pub fn first_mismatch(a: &[u8], b: &[u8]) -> (r: Option<usize>)
    ensures
        is_first_mismatch_in(a@, b@, 0, shorter_len(a@, b@), r),
{
    let min_len: usize = if a.len() <= b.len() { a.len() } else { b.len() };
    if min_len == 0 {
        return None;
    }

    if min_len >= 16 {
        return first_mismatch_portable_simd(a, b, min_len);
    }

    scalar_mismatch_from(a, b, 0, min_len)
}

} // verus!
