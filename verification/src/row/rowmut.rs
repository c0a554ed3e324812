//! Mutable row view.
use crate::col::colmut::ColMut;
use vstd::prelude::*;

verus! {

/// Mutable view over a row: a column view read as its transpose.
pub struct RowMut<'a, T> {
    /// The column whose transpose the row is.
    pub trans: ColMut<'a, T>,
}

impl<'a, T: Copy> RowMut<'a, T> {
    /// The view addresses distinct positions inside its buffer.
    pub open spec fn wf(&self) -> bool {
        self.trans.wf()
    }

    /// The logical row.
    pub open spec fn view(&self) -> Seq<T> {
        self.trans@
    }

    /// Number of rows: always one.
    pub fn nrows(&self) -> (r: usize)
        ensures
            r == 1,
    {
        1
    }

    /// Number of columns.
    pub fn ncols(&self) -> (r: usize)
        ensures
            r == self.trans.nrows(),
    {
        self.trans.nrows()
    }

    /// Reads the entry in column `col`.
    pub fn read(&self, col: usize) -> (r: T)
        requires
            self.wf(),
            col < self.trans.nrows(),
        ensures
            r == self@[col as int],
    {
        self.trans.read(col)
    }

    /// The row as a column: the transposed view.
    pub fn transpose_mut(self) -> (r: ColMut<'a, T>)
        ensures
            r.layout == self.trans.layout,
            r.data@ == old(self.trans.data)@,
            final(r.data)@ == final(self.trans.data)@,
    {
        self.trans
    }
}

} // verus!
