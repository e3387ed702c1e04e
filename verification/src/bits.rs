//! Single-bit views of the scalar types used by the codec, together
//! with the bit-vector lemmas the correctness proofs are built from.

use vstd::prelude::*;

verus! {

/// True when bit `k` of the 64-bit key `z` is set.
pub open spec fn key_bit(z: u64, k: u32) -> bool {
    (z >> k) & 1 == 1
}

/// True when bit `i` of the 32-bit coordinate `c` is set.
pub open spec fn coord_bit(c: u32, i: u32) -> bool {
    (c >> i) & 1 == 1
}

/// The mask that selects the low `n` bits of a 64-bit value.
spec fn low_mask(n: u32) -> u64 {
    if n >= 64 {
        0xffff_ffff_ffff_ffffu64
    } else {
        ((1u64 << n) - 1) as u64
    }
}

/// Neither of the two bit views is ever set at an index outside its width,
/// and no bit of zero is set.
pub proof fn lemma_zero_bits(k: u32, i: u32)
    by (bit_vector)
    ensures
        !key_bit(0u64, k),
        !coord_bit(0u32, i),
{
}

/// Or-ing a single bit `b` into position `s` sets exactly that position
/// and leaves every other position unchanged.
pub proof fn lemma_u64_or_shifted(z: u64, b: u64, s: u32, k: u32)
    by (bit_vector)
    ensures
        (b == 0 || b == 1) && s < 64 && k < 64 ==> key_bit(z | (b << s), k) == (if k == s {
            b == 1 || key_bit(z, s)
        } else {
            key_bit(z, k)
        }),
{
}

/// The 32-bit counterpart of [`lemma_u64_or_shifted`].
pub proof fn lemma_u32_or_shifted(c: u32, b: u32, s: u32, j: u32)
    by (bit_vector)
    ensures
        (b == 0 || b == 1) && s < 32 && j < 32 ==> coord_bit(c | (b << s), j) == (if j == s {
            b == 1 || coord_bit(c, s)
        } else {
            coord_bit(c, j)
        }),
{
}

/// Each bit of a bitwise-or is the disjunction of the operands' bits.
pub proof fn lemma_u64_or_bit(a: u64, b: u64, k: u32)
    by (bit_vector)
    ensures
        k < 64 ==> (key_bit(a | b, k) == (key_bit(a, k) || key_bit(b, k))),
{
}

/// Shift-and-mask extraction of a coordinate bit, widened to 64 bits,
/// yields 0 or 1 and agrees with [`coord_bit`].
pub proof fn lemma_coord_extract(c: u32, i: u32)
    by (bit_vector)
    ensures
        ((c >> i) & 1) as u64 == 0 || ((c >> i) & 1) as u64 == 1,
        i < 32 ==> ((((c >> i) & 1) as u64 == 1) == coord_bit(c, i)),
{
}

/// Shift-and-mask extraction of a key bit, narrowed to 32 bits,
/// yields 0 or 1 and agrees with [`key_bit`].
pub proof fn lemma_key_extract(z: u64, k: u32)
    by (bit_vector)
    ensures
        ((z >> k) & 1) as u32 == 0 || ((z >> k) & 1) as u32 == 1,
        k < 64 ==> ((((z >> k) & 1) as u32 == 1) == key_bit(z, k)),
{
}

/// A power of two has exactly one key bit set.
pub proof fn lemma_single_key_bit(s: u32, k: u32)
    by (bit_vector)
    ensures
        s < 64 && k < 64 ==> (key_bit(1u64 << s, k) == (k == s)),
{
}

/// A power of two has exactly one coordinate bit set.
pub proof fn lemma_single_coord_bit(s: u32, j: u32)
    by (bit_vector)
    ensures
        s < 32 && j < 32 ==> (coord_bit(1u32 << s, j) == (j == s)),
{
}

/// Two values that agree below `n` and at `n` agree below `n + 1`.
proof fn lemma_low_agreement_step(a: u64, b: u64, n: u32)
    by (bit_vector)
    requires
        n < 64,
        a & low_mask(n) == b & low_mask(n),
        key_bit(a, n) == key_bit(b, n),
    ensures
        a & low_mask((n + 1) as u32) == b & low_mask((n + 1) as u32),
{
}

/// Two values whose bits agree below `n` agree under the low-`n` mask.
proof fn lemma_agreement_below(a: u64, b: u64, n: u32)
    requires
        n <= 64,
        forall|k: u32| k < n ==> key_bit(a, k) == key_bit(b, k),
    ensures
        a & low_mask(n) == b & low_mask(n),
    decreases n,
{
    if n == 0 {
        assert(a & low_mask(0) == b & low_mask(0)) by (bit_vector);
    } else {
        let m: u32 = (n - 1) as u32;
        lemma_agreement_below(a, b, m);
        assert(key_bit(a, m) == key_bit(b, m));
        lemma_low_agreement_step(a, b, m);
        assert((m + 1) as u32 == n);
    }
}

/// Extensionality for 64-bit keys: a key is determined by its 64 bits.
pub proof fn lemma_key_bits_determine(a: u64, b: u64)
    requires
        forall|k: u32| k < 64 ==> key_bit(a, k) == key_bit(b, k),
    ensures
        a == b,
{
    lemma_agreement_below(a, b, 64);
    assert(a & low_mask(64) == b & low_mask(64));
    assert(a == b) by (bit_vector)
        requires
            a & 0xffff_ffff_ffff_ffffu64 == b & 0xffff_ffff_ffff_ffffu64,
    ;
}

/// Widening a coordinate to 64 bits keeps its low 32 bits and clears the rest.
proof fn lemma_widen_bits(c: u32, k: u32)
    by (bit_vector)
    ensures
        k < 32 ==> (key_bit(c as u64, k) == coord_bit(c, k)),
        32 <= k && k < 64 ==> !key_bit(c as u64, k),
{
}

/// Extensionality for 32-bit coordinates: a coordinate is determined by its 32 bits.
pub proof fn lemma_coord_bits_determine(a: u32, b: u32)
    requires
        forall|i: u32| i < 32 ==> coord_bit(a, i) == coord_bit(b, i),
    ensures
        a == b,
{
    let aw: u64 = a as u64;
    let bw: u64 = b as u64;
    assert forall|k: u32| k < 64 implies (#[trigger] key_bit(aw, k)) == key_bit(bw, k) by {
        lemma_widen_bits(a, k);
        lemma_widen_bits(b, k);
        if k < 32 {
            assert(coord_bit(a, k) == coord_bit(b, k));
        }
    };
    lemma_key_bits_determine(aw, bw);
}

} // verus!
