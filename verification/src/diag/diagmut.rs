//! Mutable view over a diagonal matrix.
use crate::col::colmut::ColMut;
use vstd::prelude::*;

verus! {

/// Mutable view over a diagonal matrix.
pub struct DiagMut<'a, T> {
    /// The diagonal, as a column.
    pub inner: ColMut<'a, T>,
}

impl<'a, T: Copy> DiagMut<'a, T> {
    /// The view addresses distinct positions inside its buffer.
    pub open spec fn wf(&self) -> bool {
        self.inner.wf()
    }

    /// The diagonal entries.
    pub open spec fn view(&self) -> Seq<T> {
        self.inner@
    }

    /// The diagonal as a column.
    pub fn column_vector_mut(self) -> (r: ColMut<'a, T>)
        ensures
            r.layout == self.inner.layout,
            r.data@ == old(self.inner.data)@,
            final(r.data)@ == final(self.inner.data)@,
    {
        self.inner
    }
}

} // verus!
