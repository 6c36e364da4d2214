use vstd::prelude::*;

verus! {

/// The baseline strategy: compute `1.0 / sqrt(x)` in double precision and
/// narrow the result to single precision.  The dataset generator registers
/// this strategy as the ground truth that every other strategy is measured
/// against, so the baseline never changes between runs.
///
/// Its body is a single floating-point expression, so the executable
/// implementation of [`crate::QRSqrt`] for it is supplied by the host
/// program together with its scalar type.
pub struct ExactRSqrt;

} // verus!
