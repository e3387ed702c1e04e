//! The encoder, decoder and round-trip oracle of the coordinate codec.

use vstd::prelude::*;

use crate::bits::coord_bit;
use crate::bits::key_bit;
use crate::bits::lemma_coord_bits_determine;
use crate::bits::lemma_coord_extract;
use crate::bits::lemma_key_bits_determine;
use crate::bits::lemma_key_extract;
use crate::bits::lemma_single_coord_bit;
use crate::bits::lemma_single_key_bit;
use crate::bits::lemma_u32_or_shifted;
use crate::bits::lemma_u64_or_bit;
use crate::bits::lemma_u64_or_shifted;
use crate::bits::lemma_zero_bits;

verus! {

/// The interleaving relation between a coordinate pair and a key:
/// bit `i` of `x` stands at bit `2*i` of `z`, and bit `i` of `y` at
/// bit `2*i + 1`, for every `i` below 32. The 64 clauses cover every
/// bit of `z`, so for fixed `(x, y)` exactly one key satisfies the
/// relation, and for a fixed key exactly one pair does.
pub open spec fn interleaves(x: u32, y: u32, z: u64) -> bool {
    &&& forall|i: u32| i < 32 ==> ((#[trigger] coord_bit(x, i)) == key_bit(z, (2 * i) as u32))
    &&& forall|i: u32| i < 32 ==> ((#[trigger] coord_bit(y, i)) == key_bit(z, (2 * i + 1) as u32))
}

/// Collapses a 2D coordinate into a 1D key by interleaving the bits
/// of `x` (even positions) and `y` (odd positions).
pub fn strip_2d_to_1d(x: u32, y: u32) -> (z: u64)
    ensures
        interleaves(x, y, z),
{
    let mut z: u64 = 0;
    let mut i: u32 = 0;
    proof {
        assert forall|k: u32| k < 64 implies !key_bit(0u64, k) by {
            lemma_zero_bits(k, 0);
        };
    }
    while i < 32
        invariant
            i <= 32,
            forall|j: u32| j < i ==> ((#[trigger] coord_bit(x, j)) == key_bit(z, (2 * j) as u32)),
            forall|j: u32| j < i ==> ((#[trigger] coord_bit(y, j)) == key_bit(
                z,
                (2 * j + 1) as u32,
            )),
            forall|k: u32| 2 * i <= k && k < 64 ==> !(#[trigger] key_bit(z, k)),
        decreases 32 - i,
    {
        let x_bit: u64 = ((x >> i) & 1) as u64;
        let y_bit: u64 = ((y >> i) & 1) as u64;
        let ghost z0: u64 = z;
        z = z | (x_bit << (2 * i));
        let ghost z1: u64 = z;
        z = z | (y_bit << (2 * i + 1));
        proof {
            lemma_coord_extract(x, i);
            lemma_coord_extract(y, i);
            assert forall|k: u32| k < 64 implies key_bit(z1, k) == (if k == 2 * i {
                coord_bit(x, i)
            } else {
                key_bit(z0, k)
            }) by {
                lemma_u64_or_shifted(z0, x_bit, (2 * i) as u32, k);
            };
            assert forall|k: u32| k < 64 implies key_bit(z, k) == (if k == 2 * i + 1 {
                coord_bit(y, i)
            } else {
                key_bit(z1, k)
            }) by {
                lemma_u64_or_shifted(z1, y_bit, (2 * i + 1) as u32, k);
            };
            assert forall|j: u32| j < i + 1 implies ((#[trigger] coord_bit(x, j)) == key_bit(
                z,
                (2 * j) as u32,
            )) by {
                assert(key_bit(z, (2 * j) as u32) == key_bit(z1, (2 * j) as u32));
                if j < i {
                    assert(key_bit(z1, (2 * j) as u32) == key_bit(z0, (2 * j) as u32));
                }
            };
            assert forall|j: u32| j < i + 1 implies ((#[trigger] coord_bit(y, j)) == key_bit(
                z,
                (2 * j + 1) as u32,
            )) by {
                if j < i {
                    assert(key_bit(z, (2 * j + 1) as u32) == key_bit(z1, (2 * j + 1) as u32));
                    assert(key_bit(z1, (2 * j + 1) as u32) == key_bit(z0, (2 * j + 1) as u32));
                }
            };
            assert forall|k: u32| 2 * (i + 1) <= k && k < 64 implies !(#[trigger] key_bit(
                z,
                k,
            )) by {
                assert(key_bit(z, k) == key_bit(z1, k));
                assert(key_bit(z1, k) == key_bit(z0, k));
            };
        }
        i = i + 1;
    }
    z
}

/// Recovers the 2D coordinate from a 1D key by de-interleaving its
/// bits: even positions rebuild `x`, odd positions rebuild `y`.
pub fn reconstruct_1d_to_2d(z: u64) -> (xy: (u32, u32))
    ensures
        interleaves(xy.0, xy.1, z),
{
    let mut x: u32 = 0;
    let mut y: u32 = 0;
    let mut i: u32 = 0;
    proof {
        assert forall|j: u32| j < 32 implies !coord_bit(0u32, j) by {
            lemma_zero_bits(0, j);
        };
    }
    while i < 32
        invariant
            i <= 32,
            forall|j: u32| j < i ==> ((#[trigger] coord_bit(x, j)) == key_bit(z, (2 * j) as u32)),
            forall|j: u32| j < i ==> ((#[trigger] coord_bit(y, j)) == key_bit(
                z,
                (2 * j + 1) as u32,
            )),
            forall|j: u32| i <= j && j < 32 ==> !(#[trigger] coord_bit(x, j)),
            forall|j: u32| i <= j && j < 32 ==> !(#[trigger] coord_bit(y, j)),
        decreases 32 - i,
    {
        let x_bit: u32 = ((z >> (2 * i)) & 1) as u32;
        let y_bit: u32 = ((z >> (2 * i + 1)) & 1) as u32;
        let ghost x0: u32 = x;
        let ghost y0: u32 = y;
        x = x | (x_bit << i);
        y = y | (y_bit << i);
        proof {
            lemma_key_extract(z, (2 * i) as u32);
            lemma_key_extract(z, (2 * i + 1) as u32);
            assert forall|j: u32| j < 32 implies coord_bit(x, j) == (if j == i {
                key_bit(z, (2 * i) as u32)
            } else {
                coord_bit(x0, j)
            }) by {
                lemma_u32_or_shifted(x0, x_bit, i, j);
            };
            assert forall|j: u32| j < 32 implies coord_bit(y, j) == (if j == i {
                key_bit(z, (2 * i + 1) as u32)
            } else {
                coord_bit(y0, j)
            }) by {
                lemma_u32_or_shifted(y0, y_bit, i, j);
            };
        }
        i = i + 1;
    }
    (x, y)
}

/// The round-trip oracle: encodes `(x, y)`, decodes the key, and
/// compares the reconstruction with the input. The codec is lossless,
/// so the comparison always succeeds.
pub fn prove_dimensional_integrity(x: u32, y: u32) -> (r: bool)
    ensures
        r,
{
    let timeline_1d = strip_2d_to_1d(x, y);
    let (reclaimed_x, reclaimed_y) = reconstruct_1d_to_2d(timeline_1d);
    proof {
        lemma_coordinates_unique(reclaimed_x, reclaimed_y, x, y, timeline_1d);
    }
    reclaimed_x == x && reclaimed_y == y
}

/// Round-trip law: a key interleaves at most one coordinate pair, so
/// whatever pair the decoder returns for the encoder's key is the pair
/// the encoder was given.
pub proof fn lemma_coordinates_unique(x1: u32, y1: u32, x2: u32, y2: u32, z: u64)
    requires
        interleaves(x1, y1, z),
        interleaves(x2, y2, z),
    ensures
        x1 == x2,
        y1 == y2,
{
    assert forall|i: u32| i < 32 implies (#[trigger] coord_bit(x1, i)) == coord_bit(x2, i) by {
        assert(coord_bit(x1, i) == key_bit(z, (2 * i) as u32));
        assert(coord_bit(x2, i) == key_bit(z, (2 * i) as u32));
    };
    assert forall|i: u32| i < 32 implies (#[trigger] coord_bit(y1, i)) == coord_bit(y2, i) by {
        assert(coord_bit(y1, i) == key_bit(z, (2 * i + 1) as u32));
        assert(coord_bit(y2, i) == key_bit(z, (2 * i + 1) as u32));
    };
    lemma_coord_bits_determine(x1, x2);
    lemma_coord_bits_determine(y1, y2);
}

/// Inverse round-trip law: a coordinate pair interleaves into at most
/// one key, so re-encoding the pair decoded from a key reproduces the
/// key exactly.
pub proof fn lemma_key_unique(x: u32, y: u32, z1: u64, z2: u64)
    requires
        interleaves(x, y, z1),
        interleaves(x, y, z2),
    ensures
        z1 == z2,
{
    assert forall|k: u32| k < 64 implies (#[trigger] key_bit(z1, k)) == key_bit(z2, k) by {
        let j: u32 = (k / 2) as u32;
        if k % 2 == 0 {
            assert(coord_bit(x, j) == key_bit(z1, (2 * j) as u32));
            assert(coord_bit(x, j) == key_bit(z2, (2 * j) as u32));
            assert((2 * j) as u32 == k);
        } else {
            assert(coord_bit(y, j) == key_bit(z1, (2 * j + 1) as u32));
            assert(coord_bit(y, j) == key_bit(z2, (2 * j + 1) as u32));
            assert((2 * j + 1) as u32 == k);
        }
    };
    lemma_key_bits_determine(z1, z2);
}

/// Independence law: the two components are interleaved without
/// interaction, so the keys of `(x, 0)` and `(0, y)` combine by
/// bitwise or into the key of `(x, y)`.
pub proof fn lemma_component_independence(x: u32, y: u32, zx: u64, zy: u64, z: u64)
    requires
        interleaves(x, 0u32, zx),
        interleaves(0u32, y, zy),
        interleaves(x, y, z),
    ensures
        (zx | zy) == z,
{
    let w: u64 = zx | zy;
    assert forall|i: u32| i < 32 implies ((#[trigger] coord_bit(x, i)) == key_bit(
        w,
        (2 * i) as u32,
    )) by {
        lemma_u64_or_bit(zx, zy, (2 * i) as u32);
        lemma_zero_bits(0, i);
        assert(coord_bit(x, i) == key_bit(zx, (2 * i) as u32));
        assert(coord_bit(0u32, i) == key_bit(zy, (2 * i) as u32));
    };
    assert forall|i: u32| i < 32 implies ((#[trigger] coord_bit(y, i)) == key_bit(
        w,
        (2 * i + 1) as u32,
    )) by {
        lemma_u64_or_bit(zx, zy, (2 * i + 1) as u32);
        lemma_zero_bits(0, i);
        assert(coord_bit(0u32, i) == key_bit(zx, (2 * i + 1) as u32));
        assert(coord_bit(y, i) == key_bit(zy, (2 * i + 1) as u32));
    };
    assert(interleaves(x, y, w));
    lemma_key_unique(x, y, w, z);
}

/// Bit-placement law for `x`: the key of `(1 << i, 0)` has exactly
/// bit `2*i` set.
pub proof fn lemma_x_bit_placement(i: u32, z: u64)
    requires
        i < 32,
        interleaves(1u32 << i, 0u32, z),
    ensures
        z == 1u64 << ((2 * i) as u32),
{
    let w: u64 = 1u64 << ((2 * i) as u32);
    assert forall|k: u32| k < 64 implies (#[trigger] key_bit(z, k)) == key_bit(w, k) by {
        let j: u32 = (k / 2) as u32;
        lemma_single_key_bit((2 * i) as u32, k);
        lemma_single_coord_bit(i, j);
        lemma_zero_bits(0, j);
        if k % 2 == 0 {
            assert(coord_bit(1u32 << i, j) == key_bit(z, (2 * j) as u32));
            assert((2 * j) as u32 == k);
        } else {
            assert(coord_bit(0u32, j) == key_bit(z, (2 * j + 1) as u32));
            assert((2 * j + 1) as u32 == k);
        }
    };
    lemma_key_bits_determine(z, w);
}

/// Bit-placement law for `y`: the key of `(0, 1 << i)` has exactly
/// bit `2*i + 1` set.
pub proof fn lemma_y_bit_placement(i: u32, z: u64)
    requires
        i < 32,
        interleaves(0u32, 1u32 << i, z),
    ensures
        z == 1u64 << ((2 * i + 1) as u32),
{
    let w: u64 = 1u64 << ((2 * i + 1) as u32);
    assert forall|k: u32| k < 64 implies (#[trigger] key_bit(z, k)) == key_bit(w, k) by {
        let j: u32 = (k / 2) as u32;
        lemma_single_key_bit((2 * i + 1) as u32, k);
        lemma_single_coord_bit(i, j);
        lemma_zero_bits(0, j);
        if k % 2 == 0 {
            assert(coord_bit(0u32, j) == key_bit(z, (2 * j) as u32));
            assert((2 * j) as u32 == k);
        } else {
            assert(coord_bit(1u32 << i, j) == key_bit(z, (2 * j + 1) as u32));
            assert((2 * j + 1) as u32 == k);
        }
    };
    lemma_key_bits_determine(z, w);
}

} // verus!
