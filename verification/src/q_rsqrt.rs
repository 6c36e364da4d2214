use vstd::prelude::*;

verus! {

/// The uniform capability contract every reciprocal-square-root strategy
/// implements: a single pure operation from one scalar to one scalar.
///
/// The measurement core is deliberately agnostic to which strategy runs and
/// even to the scalar type `F` itself; it only relies on each strategy being
/// a deterministic function, which the contract pins by naming the result
/// `Self::approx(x)`.  Accuracy is *not* part of the contract — measuring it
/// is the whole point of the harness.
pub trait QRSqrt<F>: Sized {
    /// The value this strategy computes for `x`, as a mathematical function.
    spec fn approx(x: F) -> F;

    /// Calculates an approximation of the reciprocal square root of `x`.
    fn q_rsqrt(x: F) -> (r: F)
        ensures
            r == Self::approx(x),
    ;
}

} // verus!
