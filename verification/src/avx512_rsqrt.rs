use vstd::prelude::*;

verus! {

/// The hardware strategy built on the `vrsqrt14ss` AVX-512 instruction of
/// x86_64, reached through the `_mm_rsqrt14_ss` intrinsic.  Intel documents
/// a maximum relative error below 2^-14 for this approximation.
///
/// The instruction only exists on capable hosts, so the executable
/// implementation of [`crate::QRSqrt`] for it is supplied by the host
/// program, which knows the target CPU.
pub struct AVX512RSqrt;

} // verus!
