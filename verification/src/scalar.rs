//! Scalar-valued quantities, carried by their IEEE 754 binary64 encoding.

use vstd::prelude::*;

verus! {

/// A real-valued quantity (a fidelity, a distance, a rate), carried as the bit
/// pattern of its IEEE 754 binary64 encoding.
///
/// The simulator core selects, stores and hands on such quantities; it never
/// computes with them. Two values are equal when their bit patterns are.
#[derive(Clone, Copy, Debug, PartialEq, Eq, Structural)]
pub struct Scalar {
    pub bits: u64,
}

/// Encoding of `0.0`.
pub const SCALAR_ZERO_BITS: u64 = 0;

/// Encoding of `1.0`.
pub const SCALAR_ONE_BITS: u64 = 0x3FF0_0000_0000_0000;

impl Scalar {
    /// The quantity zero.
    pub open spec fn spec_zero() -> Scalar {
        Scalar { bits: SCALAR_ZERO_BITS }
    }

    /// The quantity one.
    pub open spec fn spec_one() -> Scalar {
        Scalar { bits: SCALAR_ONE_BITS }
    }

    /// Wraps the bit pattern of a binary64 number.
    pub fn from_bits(bits: u64) -> (r: Scalar)
        ensures
            r.bits == bits,
    {
        Scalar { bits }
    }

    /// The bit pattern of the number.
    pub fn to_bits(&self) -> (bits: u64)
        ensures
            bits == self.bits,
    {
        self.bits
    }

    /// The quantity zero.
    #[verifier::when_used_as_spec(spec_zero)]
    pub fn zero() -> (r: Scalar)
        ensures
            r == Scalar::spec_zero(),
    {
        Scalar { bits: SCALAR_ZERO_BITS }
    }

    /// The quantity one.
    #[verifier::when_used_as_spec(spec_one)]
    pub fn one() -> (r: Scalar)
        ensures
            r == Scalar::spec_one(),
    {
        Scalar { bits: SCALAR_ONE_BITS }
    }
}

} // verus!
