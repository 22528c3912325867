use vstd::prelude::*;

verus! {

/// A run-time checked borrow cell.
///
/// It wraps a value together with a count of the handles taken on it. Taking
/// handles is unrestricted — any number of derived views may hold one — but
/// the cell's owner must find itself the sole remaining holder at teardown:
/// a surviving handle would mean some derived view still believes it may read
/// a value whose lifetime is ending, which is fatal, not recoverable.
pub struct RcBorrow<T> {
    value: T,
    outstanding: u64,
}

/// One handle taken on an [`RcBorrow`] cell, carrying the borrowed value.
pub struct Borrow<T> {
    value: T,
}

impl<T: Copy> Borrow<T> {
    /// The borrowed value, for use in contracts.
    pub closed spec fn value_spec(self) -> T {
        self.value
    }

    /// The borrowed value.
    pub fn value(&self) -> (r: T)
        ensures
            r == self.value_spec(),
    {
        self.value
    }
}

impl<T: Copy> RcBorrow<T> {
    /// The wrapped value, for use in contracts.
    pub closed spec fn value_spec(self) -> T {
        self.value
    }

    /// How many handles are outstanding.
    pub closed spec fn outstanding_spec(self) -> nat {
        self.outstanding as nat
    }

    /// Wraps a value, with no handles taken yet.
    pub fn new(t: T) -> (r: Self)
        ensures
            r.value_spec() == t,
            r.outstanding_spec() == 0,
    {
        RcBorrow { value: t, outstanding: 0 }
    }

    /// Takes one more handle on the cell.
    pub fn get(&mut self) -> (b: Borrow<T>)
        requires
            old(self).outstanding_spec() < u64::MAX as nat,
        ensures
            final(self).value_spec() == old(self).value_spec(),
            final(self).outstanding_spec() == old(self).outstanding_spec() + 1,
            b.value_spec() == old(self).value_spec(),
    {
        self.outstanding = self.outstanding + 1;
        Borrow { value: self.value }
    }

    /// The wrapped value.
    pub fn value(&self) -> (r: T)
        ensures
            r == self.value_spec(),
    {
        self.value
    }

    /// Hands one handle back to the cell.
    pub fn release(&mut self, handle: Borrow<T>)
        requires
            old(self).outstanding_spec() > 0,
        ensures
            final(self).value_spec() == old(self).value_spec(),
            final(self).outstanding_spec() == old(self).outstanding_spec() - 1,
    {
        let _ = handle;
        self.outstanding = self.outstanding - 1;
    }

    /// Tears the cell down, reporting whether its owner was the sole
    /// remaining holder. A `false` answer is the fatal condition: a handle
    /// outlives the cell, and the caller must abort rather than read through
    /// it.
    pub fn finish(self) -> (sole: bool)
        ensures
            sole == (self.outstanding_spec() == 0),
    {
        self.outstanding == 0
    }
}

} // verus!
