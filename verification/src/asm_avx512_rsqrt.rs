use vstd::prelude::*;

verus! {

/// The hardware strategy built on the `vrsqrt14ss` AVX-512 instruction of
/// x86_64, written as a single inline-assembly statement instead of an
/// intrinsic so that each measurement stays one genuine scalar instruction.
/// Intel documents a maximum relative error below 2^-14.
///
/// Inline assembly only exists on capable hosts, so the executable
/// implementation of [`crate::QRSqrt`] for it is supplied by the host
/// program, which knows the target CPU.
pub struct AsmAVX512RSqrt;

} // verus!
