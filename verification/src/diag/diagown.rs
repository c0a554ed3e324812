//! Owned diagonal matrix.
use crate::col::colown::Col;
use vstd::prelude::*;

verus! {

/// Heap-allocated diagonal matrix, stored as the column of its diagonal.
#[derive(Clone, Debug)]
pub struct Diag<T> {
    /// The diagonal, as a column.
    pub inner: Col<T>,
}

impl<T: Copy> Diag<T> {
    /// The diagonal entries.
    pub open spec fn view(&self) -> Seq<T> {
        self.inner@
    }

    /// The diagonal as a column.
    pub fn into_column_vector(self) -> (r: Col<T>)
        ensures
            r == self.inner,
    {
        self.inner
    }
}

} // verus!
