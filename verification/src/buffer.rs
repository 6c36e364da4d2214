use vstd::prelude::*;

verus! {

/// A fixed-capacity buffer with an explicit fill-then-freeze lifecycle.
///
/// The dataset buffers are allocated once, written exactly once per slot, and
/// only then treated as plain initialized arrays.  `FillBuffer` makes that
/// discipline checkable: `push` may only be called while there is still an
/// unwritten slot, and `finish` — the one-way transition to an ordinary,
/// directly indexable `Vec` — may only be called once every slot has been
/// written.
pub struct FillBuffer<F> {
    data: Vec<F>,
    cap: usize,
}

impl<F> FillBuffer<F> {
    /// The number of slots the buffer was created for.
    pub closed spec fn spec_capacity(&self) -> usize {
        self.cap
    }

    /// Creates an empty buffer with storage reserved for exactly `cap` slots.
    pub fn new(cap: usize) -> (r: Self)
        ensures
            r@ == Seq::<F>::empty(),
            r.spec_capacity() == cap,
    {
        FillBuffer { data: Vec::with_capacity(cap), cap }
    }

    /// How many slots have been written so far.
    pub fn len(&self) -> (r: usize)
        ensures
            r == self@.len(),
    {
        self.data.len()
    }

    /// The number of slots the buffer was created for.
    pub fn capacity(&self) -> (r: usize)
        ensures
            r == self.spec_capacity(),
    {
        self.cap
    }

    /// Writes the next unwritten slot.
    pub fn push(&mut self, value: F)
        requires
            old(self)@.len() < old(self).spec_capacity(),
        ensures
            final(self)@ == old(self)@.push(value),
            final(self).spec_capacity() == old(self).spec_capacity(),
    {
        self.data.push(value);
    }

    /// The one-way transition to an initialized array: only a buffer whose
    /// every slot has been written may be frozen.
    pub fn finish(self) -> (r: Vec<F>)
        requires
            self@.len() == self.spec_capacity(),
        ensures
            r@ == self@,
    {
        self.data
    }
}

impl<F> View for FillBuffer<F> {
    type V = Seq<F>;

    closed spec fn view(&self) -> Seq<F> {
        self.data@
    }
}

} // verus!
