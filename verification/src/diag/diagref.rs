//! Immutable view over a diagonal matrix.
use crate::col::colref::ColRef;
use vstd::prelude::*;

verus! {

/// Immutable view over a diagonal matrix.
pub struct DiagRef<'a, T> {
    /// The diagonal, as a column.
    pub inner: ColRef<'a, T>,
}

impl<'a, T> Clone for DiagRef<'a, T> {
    fn clone(&self) -> (r: Self)
        ensures
            r == *self,
    {
        *self
    }
}

impl<'a, T> Copy for DiagRef<'a, T> {

}

impl<'a, T: Copy> DiagRef<'a, T> {
    /// The view addresses distinct positions inside its buffer.
    pub open spec fn wf(&self) -> bool {
        self.inner.wf()
    }

    /// The diagonal entries.
    pub open spec fn view(&self) -> Seq<T> {
        self.inner@
    }

    /// The diagonal as a column.
    pub fn column_vector(self) -> (r: ColRef<'a, T>)
        ensures
            r == self.inner,
    {
        self.inner
    }
}

} // verus!
