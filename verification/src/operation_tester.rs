use vstd::prelude::*;

use crate::buffer::FillBuffer;
use crate::dataset;
use crate::q_rsqrt::QRSqrt;
use crate::scalar::Scalar;

verus! {

/// Relies on `std::hint::black_box`: an identity function whose only effect
/// is that the compiler treats the value as opaque.  Routing each reference
/// element through it keeps every strategy invocation in the measurement
/// loop a genuine scalar call instead of a vectorized or fused batch — a
/// benchmarking-fidelity best effort with no numeric effect.
#[verifier::external_body]
fn barrier<F>(x: F) -> (r: F)
    ensures
        r == x,
{
    std::hint::black_box(x)
}

/// What one full strategy sweep stores: element `i` of the result buffer is
/// the strategy's answer for element `i` of the reference buffer.
pub open spec fn run_output<F: Scalar, S: QRSqrt<F>>(refer: Seq<F>) -> Seq<F> {
    Seq::new(refer.len(), |i: int| S::approx(refer[i]))
}

/// What the error pass stores: element `i` is the relative error of the
/// result against the exact answer at the same index.
pub open spec fn error_output<F: Scalar>(result: Seq<F>, exact: Seq<F>) -> Seq<F> {
    Seq::new(result.len(), |i: int| F::relative_error(result[i], exact[i]))
}

/// The measurement engine.  It owns the immutable dataset (`refer` paired
/// with `exact`), a result buffer overwritten by each strategy run, and an
/// error buffer overwritten by each error pass; the two mutable buffers are
/// reused across runs rather than reallocated.
pub struct OpTester<F> {
    refer: Vec<F>,
    exact: Vec<F>,
    result: Option<Vec<F>>,
    error: Option<Vec<F>>,
}

impl<F: Scalar> OpTester<F> {
    /// The reference inputs, fixed at construction.
    pub closed spec fn reference_view(&self) -> Seq<F> {
        self.refer@
    }

    /// The exact answers, fixed at construction.
    pub closed spec fn exact_view(&self) -> Seq<F> {
        self.exact@
    }

    /// The result buffer of the most recent run, if any run has happened.
    pub closed spec fn result_view(&self) -> Option<Seq<F>> {
        match self.result {
            Option::Some(v) => Option::Some(v@),
            Option::None => Option::None,
        }
    }

    /// The error buffer of the most recent error pass, if any has happened.
    pub closed spec fn error_view(&self) -> Option<Seq<F>> {
        match self.error {
            Option::Some(v) => Option::Some(v@),
            Option::None => Option::None,
        }
    }

    /// Well-formedness: the dataset buffers are index-aligned and the
    /// reusable buffers, once present, have the dataset's length.
    pub closed spec fn wf(&self) -> bool {
        &&& self.exact@.len() == self.refer@.len()
        &&& match self.result {
            Option::Some(v) => v@.len() == self.refer@.len(),
            Option::None => true,
        }
        &&& match self.error {
            Option::Some(v) => v@.len() == self.refer@.len(),
            Option::None => true,
        }
    }

    /// Builds an engine over the dataset generated from `input` extended to
    /// length `n`, with exact answers computed by the baseline strategy `E`.
    pub fn new<E: QRSqrt<F>>(input: &Vec<F>, n: usize) -> (r: Self)
        ensures
            r.wf(),
            r.reference_view() == dataset::reference_seq::<F>(input@, n as nat),
            r.exact_view() == dataset::exact_seq::<F, E>(r.reference_view()),
            r.result_view() == None::<Seq<F>>,
            r.error_view() == None::<Seq<F>>,
    {
        let (refer, exact) = dataset::generate::<F, E>(input, n);
        OpTester { refer, exact, result: None, error: None }
    }

    /// The dataset length.
    pub fn len(&self) -> (r: usize)
        ensures
            r == self.reference_view().len(),
    {
        self.refer.len()
    }

    /// Applies strategy `S` to every reference element in order, storing the
    /// answers in the result buffer.  The previous result buffer's storage is
    /// reused when one is present; the dataset and the error buffer are left
    /// untouched.
    pub fn run_q_sqrt_seq<S: QRSqrt<F>>(&mut self)
        requires
            old(self).wf(),
        ensures
            final(self).wf(),
            run_post::<F, S>(*old(self), *final(self)),
    {
        let mut prev: Option<Vec<F>> = None;
        core::mem::swap(&mut self.result, &mut prev);
        let buf: Vec<F> = match prev {
            Some(b) => run_overwrite::<F, S>(&self.refer, b),
            None => run_fresh::<F, S>(&self.refer),
        };
        self.result = Some(buf);
    }

    /// Computes the relative error of the most recent run against the exact
    /// answers, reusing the error buffer's storage when one is present, and
    /// reports whether a result was available.  Asking for the error before
    /// any run is a legitimate call: it changes nothing and reports `false`.
    pub fn calculate_error(&mut self) -> (r: bool)
        requires
            old(self).wf(),
        ensures
            final(self).wf(),
            error_post::<F>(*old(self), *final(self), r),
    {
        let mut prev: Option<Vec<F>> = None;
        core::mem::swap(&mut self.error, &mut prev);
        match &self.result {
            Some(res) => {
                let errs = error_into::<F>(res, &self.exact, prev);
                self.error = Some(errs);
                true
            },
            None => {
                self.error = prev;
                false
            },
        }
    }

    /// Read access to the reference inputs.
    pub fn reference_values(&self) -> (r: &Vec<F>)
        ensures
            r@ == self.reference_view(),
    {
        &self.refer
    }

    /// Read access to the exact answers.
    pub fn exact_values(&self) -> (r: &Vec<F>)
        ensures
            r@ == self.exact_view(),
    {
        &self.exact
    }

    /// Read access to the result buffer of the most recent run.
    pub fn result_values(&self) -> (r: Option<&Vec<F>>)
        ensures
            r is Some <==> self.result_view() is Some,
            r matches Some(v) ==> self.result_view() == Some(v@),
    {
        match &self.result {
            Some(v) => Some(v),
            None => None,
        }
    }

    /// Read access to the error buffer of the most recent error pass.
    pub fn error_values(&self) -> (r: Option<&Vec<F>>)
        ensures
            r is Some <==> self.error_view() is Some,
            r matches Some(v) ==> self.error_view() == Some(v@),
    {
        match &self.error {
            Some(v) => Some(v),
            None => None,
        }
    }
}

/// How one strategy run relates an engine state to the next: the dataset and
/// the error buffer are unchanged, and the result buffer holds exactly the
/// strategy's answers to the reference inputs.
pub open spec fn run_post<F: Scalar, S: QRSqrt<F>>(pre: OpTester<F>, post: OpTester<F>) -> bool {
    &&& post.reference_view() == pre.reference_view()
    &&& post.exact_view() == pre.exact_view()
    &&& post.error_view() == pre.error_view()
    &&& post.result_view() == Some(run_output::<F, S>(pre.reference_view()))
}

/// How one error pass relates an engine state to the next: the dataset and
/// the result buffer are unchanged; when a result was present (`ok`), the
/// error buffer holds exactly its relative errors, otherwise nothing moved.
pub open spec fn error_post<F: Scalar>(pre: OpTester<F>, post: OpTester<F>, ok: bool) -> bool {
    &&& post.reference_view() == pre.reference_view()
    &&& post.exact_view() == pre.exact_view()
    &&& post.result_view() == pre.result_view()
    &&& ok <==> pre.result_view() is Some
    &&& pre.result_view() matches Some(res) ==> post.error_view() == Some(
        error_output::<F>(res, pre.exact_view()),
    )
    &&& !ok ==> post.error_view() == pre.error_view()
}

fn run_fresh<F: Scalar, S: QRSqrt<F>>(refer: &Vec<F>) -> (r: Vec<F>)
    ensures
        r@ == run_output::<F, S>(refer@),
{
    let n = refer.len();
    let mut buf = FillBuffer::new(n);
    for i in 0..n
        invariant
            n == refer@.len(),
            buf.spec_capacity() == n,
            buf@.len() == i,
            forall|j: int| 0 <= j < i ==> buf@[j] == S::approx(refer@[j]),
    {
        let val = barrier(refer[i]);
        buf.push(S::q_rsqrt(val));
    }
    let buf = buf.finish();
    proof {
        assert(buf@ =~= run_output::<F, S>(refer@));
    }
    buf
}

fn run_overwrite<F: Scalar, S: QRSqrt<F>>(refer: &Vec<F>, prev: Vec<F>) -> (r: Vec<F>)
    requires
        prev@.len() == refer@.len(),
    ensures
        r@ == run_output::<F, S>(refer@),
{
    let mut buf = prev;
    let n = refer.len();
    for i in 0..n
        invariant
            n == refer@.len(),
            buf@.len() == n,
            forall|j: int| 0 <= j < i ==> buf@[j] == S::approx(refer@[j]),
    {
        let val = barrier(refer[i]);
        buf.set(i, S::q_rsqrt(val));
    }
    proof {
        assert(buf@ =~= run_output::<F, S>(refer@));
    }
    buf
}

fn error_into<F: Scalar>(result: &Vec<F>, exact: &Vec<F>, prev: Option<Vec<F>>) -> (r: Vec<F>)
    requires
        result@.len() == exact@.len(),
        prev matches Some(b) ==> b@.len() == result@.len(),
    ensures
        r@ == error_output::<F>(result@, exact@),
{
    let n = result.len();
    match prev {
        Some(b) => {
            let mut buf = b;
            for i in 0..n
                invariant
                    n == result@.len(),
                    n == exact@.len(),
                    buf@.len() == n,
                    forall|j: int| 0 <= j < i ==> buf@[j] == F::relative_error(
                        result@[j],
                        exact@[j],
                    ),
            {
                buf.set(i, F::rel_error(result[i], exact[i]));
            }
            proof {
                assert(buf@ =~= error_output::<F>(result@, exact@));
            }
            buf
        },
        None => {
            let mut buf = FillBuffer::new(n);
            for i in 0..n
                invariant
                    n == result@.len(),
                    n == exact@.len(),
                    buf.spec_capacity() == n,
                    buf@.len() == i,
                    forall|j: int| 0 <= j < i ==> buf@[j] == F::relative_error(
                        result@[j],
                        exact@[j],
                    ),
            {
                buf.push(F::rel_error(result[i], exact[i]));
            }
            let buf = buf.finish();
            proof {
                assert(buf@ =~= error_output::<F>(result@, exact@));
            }
            buf
        },
    }
}

/// Law: strategies are deterministic, so two consecutive runs of the same
/// strategy leave the engine in identical states — the second run reproduces
/// the first's result buffer exactly.
pub proof fn lemma_run_idempotent<F: Scalar, S: QRSqrt<F>>(
    s0: OpTester<F>,
    s1: OpTester<F>,
    s2: OpTester<F>,
)
    requires
        run_post::<F, S>(s0, s1),
        run_post::<F, S>(s1, s2),
    ensures
        s2.result_view() == s1.result_view(),
        s2.reference_view() == s1.reference_view(),
        s2.exact_view() == s1.exact_view(),
        s2.error_view() == s1.error_view(),
{
}

/// Law: a run followed by an error pass, repeated with the same strategy,
/// reproduces both the result buffer and the error buffer of the first
/// round, and both rounds find a result available.
pub proof fn lemma_run_error_idempotent<F: Scalar, S: QRSqrt<F>>(
    s0: OpTester<F>,
    s1: OpTester<F>,
    s2: OpTester<F>,
    s3: OpTester<F>,
    s4: OpTester<F>,
    ok1: bool,
    ok2: bool,
)
    requires
        run_post::<F, S>(s0, s1),
        error_post::<F>(s1, s2, ok1),
        run_post::<F, S>(s2, s3),
        error_post::<F>(s3, s4, ok2),
    ensures
        ok1,
        ok2,
        s3.result_view() == s1.result_view(),
        s4.error_view() == s2.error_view(),
{
}

/// Law: a run overwrites the result buffer completely — after two
/// consecutive runs with different strategies the engine holds exactly what
/// a single run of the second strategy yields, with no residue of the first.
pub proof fn lemma_run_overwrites<F: Scalar, S1: QRSqrt<F>, S2: QRSqrt<F>>(
    s0: OpTester<F>,
    s1: OpTester<F>,
    s2: OpTester<F>,
)
    requires
        run_post::<F, S1>(s0, s1),
        run_post::<F, S2>(s1, s2),
    ensures
        s2.result_view() == Some(run_output::<F, S2>(s0.reference_view())),
{
}

} // verus!
