use vstd::prelude::*;

verus! {

/// The hardware strategy built on the `rsqrtss` SSE instruction of x86 and
/// x86_64, reached through the `_mm_rsqrt_ss` intrinsic.  Intel documents a
/// maximum relative error below 1.5 * 2^-12 for this approximation.
///
/// The instruction only exists on capable hosts, so the executable
/// implementation of [`crate::QRSqrt`] for it is supplied by the host
/// program, which knows the target CPU.
pub struct SSERSqrt;

} // verus!
