use vstd::prelude::*;

verus! {

/// The scalar arithmetic the measurement core needs from its element type.
///
/// The harness itself never computes with the scalars: it only moves them
/// between buffers.  The two operations it cannot avoid — turning the
/// counting sequence 1, 2, 3, … into filler elements, and the relative-error
/// formula `|approx - exact| / |exact|` — are supplied by the host program's
/// scalar type (single-precision floating point in practice), each pinned to
/// a deterministic specification-level function so that everything built on
/// top of them is a function of the inputs alone.
pub trait Scalar: Copy {
    /// The scalar standing for the positive integer `c`, as a mathematical
    /// function.
    spec fn counting_value(c: usize) -> Self;

    /// Converts the positive integer `c` into a scalar; used to extend a
    /// too-short input sequence with the counting sequence 1, 2, 3, ….
    fn from_count(c: usize) -> (r: Self)
        ensures
            r == Self::counting_value(c),
    ;

    /// The relative error of `approx` against `exact`, as a mathematical
    /// function.
    spec fn relative_error(approx: Self, exact: Self) -> Self;

    /// Computes the relative error `|approx - exact| / |exact|`.
    fn rel_error(approx: Self, exact: Self) -> (r: Self)
        ensures
            r == Self::relative_error(approx, exact),
    ;
}

} // verus!
