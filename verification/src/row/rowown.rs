//! Owned row.
use crate::col::colown::Col;
use vstd::prelude::*;

verus! {

/// Heap-allocated row: an owned column read as its transpose.
#[derive(Clone, Debug)]
pub struct Row<T> {
    /// The column whose transpose the row is.
    pub trans: Col<T>,
}

impl<T: Copy> Row<T> {
    /// The logical row.
    pub open spec fn view(&self) -> Seq<T> {
        self.trans@
    }

    /// Number of columns.
    pub fn ncols(&self) -> (r: usize)
        ensures
            r == self@.len(),
    {
        self.trans.nrows()
    }

    /// The row as a column.
    pub fn into_transpose(self) -> (r: Col<T>)
        ensures
            r == self.trans,
    {
        self.trans
    }
}

} // verus!
