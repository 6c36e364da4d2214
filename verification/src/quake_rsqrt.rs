use vstd::prelude::*;

verus! {

/// The bit-trick first guess: interpreting the input's IEEE-754 bit pattern
/// as an integer, the guess is `MAGIC - (bits >> 1)`.  This constant is Jan
/// Kadlec's refinement of the classic Quake III value.
pub const QUAKE_MAGIC: u32 = 0x5f1ffff9;

/// The bit pattern of an IEEE-754 single-precision value that is strictly
/// positive and finite: sign bit clear, exponent below the all-ones infinity
/// and NaN range, and not the all-zero pattern of 0.0.
pub open spec fn positive_finite_bits(bits: u32) -> bool {
    0 < bits < 0x7f800000
}

/// The famous fast inverse square root from Quake III, with Jan Kadlec's
/// constants: an integer bit-trick first guess followed by one polishing
/// step in ordinary floating-point arithmetic.
///
/// The integer half is [`QuakeRSqrt::magic_guess`]; the polishing step
/// `y * 0.703952253 * (2.38924456 - x * y * y)` is floating-point work that
/// the host program performs when it implements [`crate::QRSqrt`] for its
/// scalar type.
pub struct QuakeRSqrt;

impl QuakeRSqrt {
    /// The integer half of the trick.  For every bit pattern of a positive
    /// finite single-precision input the guess is again the bit pattern of a
    /// strictly positive finite value — the first step towards the guarantee
    /// that a reciprocal square root of a positive input is positive.
    pub fn magic_guess(bits: u32) -> (r: u32)
        requires
            positive_finite_bits(bits),
        ensures
            r == QUAKE_MAGIC - (bits >> 1),
            positive_finite_bits(r),
    {
        proof {
            assert(bits >> 1 < 0x40000000) by (bit_vector)
                requires
                    bits < 0x7f800000,
            ;
        }
        QUAKE_MAGIC - (bits >> 1)
    }
}

} // verus!
