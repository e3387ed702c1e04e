//! A lossless 2D <-> 1D coordinate codec built on bit interleaving
//! (a Z-order / Morton-style space-filling curve).
//!
//! A pair of 32-bit coordinates is woven into a single 64-bit key:
//! bit `i` of `x` lands on bit `2*i` of the key, and bit `i` of `y`
//! lands on bit `2*i + 1`. The mapping is a bijection, so decoding a
//! key recovers the original pair exactly; the proofs in [`codec`]
//! establish this for the whole domain.

pub mod bits;
pub mod codec;

pub use codec::prove_dimensional_integrity;
pub use codec::reconstruct_1d_to_2d;
pub use codec::strip_2d_to_1d;
