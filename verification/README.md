# bftree_simd

Verified byte-slice comparison helpers for a B-tree's key search:

- `first_mismatch`: the first index at which two byte slices differ,
- `common_prefix_len`: the length of their longest common prefix
  (reported modulo 2^16, as a `u16`),
- `bytes_cmp`: their lexicographic order.

Each is computed over blocks of bytes (lane masks or machine words whose
lowest set or clear bit locates the first difference) and proved by Verus
to equal the byte-by-byte definition.

Layout:

- `src/spec.rs`: the model (agreement on a range, first mismatch, common
  prefix length) and its uniqueness lemmas.
- `src/scan.rs`: the first-mismatch search: 32/16-lane blocks, words, bytes.
- `src/prefix.rs`: common prefix length, byte by byte, with a 16-lane
  mask, and with two 64-bit byte lanes per block.
- `src/compare.rs`: the lexicographic order and the comparison built on the
  first mismatch.
- `src/laws.rs`: properties of the order and of common prefixes.
- `tests/`: the tests, including randomized agreement with `<[u8]>::cmp`.

Words are assembled least significant byte first on every target, so the
byte index returned by `first_diff_byte_in_word` is memory order on
little-endian machines.
