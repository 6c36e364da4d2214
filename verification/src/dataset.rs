use vstd::prelude::*;

use crate::buffer::FillBuffer;
use crate::q_rsqrt::QRSqrt;
use crate::scalar::Scalar;

verus! {

/// The reference input sequence of length `n` drawn from `input`: the given
/// values first and, if fewer than `n` were given, the counting sequence
/// 1, 2, 3, … as deterministic filler.
pub open spec fn reference_seq<F: Scalar>(input: Seq<F>, n: nat) -> Seq<F> {
    Seq::new(
        n,
        |i: int|
            if i < input.len() {
                input[i]
            } else {
                F::counting_value((i - input.len() + 1) as usize)
            },
    )
}

/// The exact-answer sequence paired with `refer`: each element is what the
/// baseline strategy `E` computes for the reference value at the same index.
pub open spec fn exact_seq<F: Scalar, E: QRSqrt<F>>(refer: Seq<F>) -> Seq<F> {
    Seq::new(refer.len(), |i: int| E::approx(refer[i]))
}

/// Builds the two index-aligned dataset buffers of length `n`: `reference`
/// holds the input values as scalars, extended with the counting sequence
/// when `input` is shorter than `n` (a filler policy, not an error), and
/// `exact` holds the baseline answer for each reference value.  The baseline
/// is itself a registered strategy, so the ground truth never changes
/// between runs.
pub fn generate<F: Scalar, E: QRSqrt<F>>(input: &Vec<F>, n: usize) -> (r: (Vec<F>, Vec<F>))
    ensures
        r.0@ == reference_seq::<F>(input@, n as nat),
        r.1@ == exact_seq::<F, E>(r.0@),
{
    let mut refer = FillBuffer::new(n);
    let mut exact = FillBuffer::new(n);
    for i in 0..n
        invariant
            refer.spec_capacity() == n,
            exact.spec_capacity() == n,
            refer@.len() == i,
            exact@.len() == i,
            forall|j: int| 0 <= j < i ==> refer@[j] == reference_seq::<F>(input@, n as nat)[j],
            forall|j: int| 0 <= j < i ==> exact@[j] == E::approx(refer@[j]),
    {
        let val = if i < input.len() {
            input[i]
        } else {
            F::from_count(i - input.len() + 1)
        };
        refer.push(val);
        exact.push(E::q_rsqrt(val));
    }
    let refer = refer.finish();
    let exact = exact.finish();
    proof {
        assert(refer@ =~= reference_seq::<F>(input@, n as nat));
        assert(exact@ =~= exact_seq::<F, E>(refer@));
    }
    (refer, exact)
}

} // verus!
