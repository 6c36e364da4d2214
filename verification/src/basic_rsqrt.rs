use vstd::prelude::*;

verus! {

/// The almost trivial strategy: compute `1.0 / x.sqrt()` directly in
/// single precision.  This is the portable fallback that is available on
/// every target.
///
/// Its body is a single floating-point expression, so the executable
/// implementation of [`crate::QRSqrt`] for it is supplied by the host
/// program together with its scalar type.
pub struct BasicRSqrt;

} // verus!
