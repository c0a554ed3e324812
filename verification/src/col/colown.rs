//! Owned column.
use crate::algebra;
use crate::col::colmut::ColMut;
use crate::col::colref::ColRef;
use crate::diag::diagmut::DiagMut;
use crate::diag::diagown::Diag;
use crate::diag::diagref::DiagRef;
use crate::layout::MatLayout;
use crate::linalg::reductions;
use crate::mat::matmut::MatMut;
use crate::mat::matref::MatRef;
use crate::row::rowmut::RowMut;
use crate::row::rowown::Row;
use crate::row::rowref::RowRef;
use crate::scalar::{ComplexField, Conj};
use vstd::prelude::*;

verus! {

/// Heap-allocated resizable column vector. Its entries are contiguous in
/// memory: the row stride is one.
#[derive(Clone, Debug)]
pub struct Col<T> {
    /// The entries, in order.
    pub data: Vec<T>,
}

/// The memory for a column could not be reserved.
#[derive(Clone, Copy, Debug, PartialEq, Eq, Structural)]
pub struct TryReserveError {}

/// What `Col::try_reserve` reports for the outcome of the allocation: success
/// for success, and `TryReserveError` for any failure.
pub fn reserve_outcome(outcome: Result<(), std::collections::TryReserveError>) -> (r: Result<
    (),
    TryReserveError,
>)
    ensures
        outcome.is_ok() ==> r == Ok::<(), TryReserveError>(()),
        outcome.is_err() ==> r == Err::<(), TryReserveError>(TryReserveError {  }),
{
    match outcome {
        Ok(_) => Ok(()),
        Err(_) => Err(TryReserveError {  }),
    }
}

impl<T> Col<T> {
    /// The entries of the column, in order.
    pub open spec fn view(&self) -> Seq<T> {
        self.data@
    }

    /// Returns a new column with dimension `nrows`, filled with the provided
    /// function: the entry in row `i` is `f(i)`.
    pub fn from_fn<F: Fn(usize) -> T>(nrows: usize, f: F) -> (r: Self)
        requires
            forall|i: usize| i < nrows ==> call_requires(f, (i,)),
        ensures
            r@.len() == nrows,
            forall|i: usize| i < nrows ==> call_ensures(f, (i,), #[trigger] r@[i as int]),
    {
        let mut data: Vec<T> = Vec::new();
        let mut i: usize = 0;
        while i < nrows
            invariant
                i <= nrows,
                data@.len() == i,
                forall|k: usize| k < nrows ==> call_requires(f, (k,)),
                forall|k: usize| k < i ==> call_ensures(f, (k,), #[trigger] data@[k as int]),
            decreases nrows - i,
        {
            let value = f(i);
            data.push(value);
            i += 1;
        }
        Col { data }
    }

    /// Number of rows.
    pub fn nrows(&self) -> (r: usize)
        ensures
            r == self@.len(),
    {
        self.data.len()
    }

    /// Number of columns: always one.
    pub fn ncols(&self) -> (r: usize)
        ensures
            r == 1,
    {
        1
    }

    /// Number of rows and of columns.
    pub fn shape(&self) -> (r: (usize, usize))
        ensures
            r == (self@.len() as usize, 1usize),
    {
        (self.data.len(), 1)
    }

    /// Distance between consecutive entries, in elements: always one.
    pub fn row_stride(&self) -> (r: isize)
        ensures
            r == 1,
    {
        1
    }

    /// Reserves the capacity for `new_row_capacity` rows without changing the
    /// column, or reports that the memory could not be had. Does nothing if
    /// the capacity is already sufficient: that is so, and the call
    /// succeeds, wherever no more rows are asked for than the column has.
    /// Otherwise memory for `new_row_capacity - nrows` more rows is asked
    /// for, and the allocator decides.
    pub fn try_reserve(&mut self, new_row_capacity: usize) -> (r: Result<(), TryReserveError>)
        ensures
            final(self)@ == old(self)@,
            new_row_capacity <= old(self)@.len() ==> r == Ok::<(), TryReserveError>(()),
    {
        let len = self.data.len();
        if new_row_capacity <= len {
            return Ok(());
        }
        reserve_outcome(self.data.try_reserve(new_row_capacity - len))
    }

    /// Reserves the capacity for `new_row_capacity` rows without changing the
    /// column. Does nothing if the capacity is already sufficient.
    pub fn reserve(&mut self, new_row_capacity: usize)
        ensures
            final(self)@ == old(self)@,
    {
        let len = self.data.len();
        let additional: usize = if new_row_capacity > len {
            new_row_capacity - len
        } else {
            0
        };
        self.data.reserve(additional);
    }

    /// Resizes the column in place so that the new dimension is `new_nrows`.
    /// Rows that stay keep their entries; a new row `i` holds `f(i)`.
    pub fn resize_with<F: Fn(usize) -> T>(&mut self, new_nrows: usize, f: F)
        requires
            forall|i: usize| old(self)@.len() <= i < new_nrows ==> call_requires(f, (i,)),
        ensures
            final(self)@.len() == new_nrows,
            forall|i: int|
                0 <= i < new_nrows && i < old(self)@.len() ==> #[trigger] final(self)@[i] == old(
                    self,
                )@[i],
            forall|i: usize|
                old(self)@.len() <= i < new_nrows ==> call_ensures(
                    f,
                    (i,),
                    #[trigger] final(self)@[i as int],
                ),
    {
        let len = self.data.len();
        if new_nrows <= len {
            self.data.truncate(new_nrows);
        } else {
            let mut i: usize = len;
            while i < new_nrows
                invariant
                    len <= i <= new_nrows,
                    len == old(self)@.len(),
                    self.data@.len() == i,
                    forall|k: usize| len <= k < new_nrows ==> call_requires(f, (k,)),
                    forall|k: int| 0 <= k < len ==> #[trigger] self.data@[k] == old(self)@[k],
                    forall|k: usize|
                        len <= k < i ==> call_ensures(f, (k,), #[trigger] self.data@[k as int]),
                decreases new_nrows - i,
            {
                let value = f(i);
                self.data.push(value);
                i += 1;
            }
        }
    }

    /// Truncates the column so that its new dimension is `new_nrows`, which
    /// must not exceed the current one.
    pub fn truncate(&mut self, new_nrows: usize)
        requires
            new_nrows <= old(self)@.len(),
        ensures
            final(self)@ == old(self)@.subrange(0, new_nrows as int),
    {
        self.data.truncate(new_nrows);
    }

    /// The same column, under a number of rows that the caller states.
    pub fn into_row_shape(self, nrows: usize) -> (r: Col<T>)
        requires
            nrows == self@.len(),
        ensures
            r@ == self@,
    {
        self
    }

    /// The column as the diagonal of a diagonal matrix.
    pub fn into_diagonal(self) -> (r: Diag<T>)
        ensures
            r.inner == self,
    {
        Diag { inner: self }
    }

    /// The column as a row.
    pub fn into_transpose(self) -> (r: Row<T>)
        ensures
            r.trans == self,
    {
        Row { trans: self }
    }

    /// The column that holds the elements of `vec`, in order.
    pub fn from_vec(vec: Vec<T>) -> (r: Self)
        ensures
            r == (Col { data: vec }),
    {
        Col { data: vec }
    }

    /// The vector that holds the entries of the column, in order.
    pub fn into_vec(self) -> (r: Vec<T>)
        ensures
            r == self.data,
    {
        self.data
    }
}

impl<T> core::ops::Index<usize> for Col<T> {
    type Output = T;

    fn index(&self, row: usize) -> (r: &T)
        ensures
            *r == self@[row as int],
    {
        &self.data[row]
    }
}

impl<T> vstd::std_specs::core::IndexSpecImpl<usize> for Col<T> {
    open spec fn index_req(&self, index: &usize) -> bool {
        *index < self@.len()
    }
}

impl<T> From<Vec<T>> for Col<T> {
    fn from(vec: Vec<T>) -> (r: Self) {
        Col::from_vec(vec)
    }
}

impl<T> vstd::std_specs::convert::FromSpecImpl<Vec<T>> for Col<T> {
    open spec fn obeys_from_spec() -> bool {
        true
    }

    open spec fn from_spec(vec: Vec<T>) -> Self {
        Col { data: vec }
    }
}

impl<T> From<Col<T>> for Vec<T> {
    fn from(col: Col<T>) -> (r: Self) {
        col.into_vec()
    }
}

impl<T> vstd::std_specs::convert::FromSpecImpl<Col<T>> for Vec<T> {
    open spec fn obeys_from_spec() -> bool {
        true
    }

    open spec fn from_spec(col: Col<T>) -> Self {
        col.data
    }
}

impl<T: Copy> Col<T> {
    /// The layout of the views of the whole column: contiguous entries from
    /// the start of the buffer.
    pub open spec fn layout(&self) -> MatLayout {
        MatLayout::column_major_spec(self@.len() as usize, 1)
    }

    /// Returns a new column with dimension `nrows`, filled with `value`.
    pub fn full(nrows: usize, value: T) -> (r: Self)
        ensures
            r@ == Seq::new(nrows as nat, |i: int| value),
    {
        let mut data: Vec<T> = Vec::new();
        let mut i: usize = 0;
        while i < nrows
            invariant
                i <= nrows,
                data@.len() == i,
                forall|k: int| 0 <= k < i ==> data@[k] == value,
            decreases nrows - i,
        {
            data.push(value);
            i += 1;
        }
        proof {
            assert(data@ =~= Seq::new(nrows as nat, |i: int| value));
        }
        Col { data }
    }

    /// Returns a view over `self`.
    pub fn as_ref(&self) -> (r: ColRef<'_, T>)
        ensures
            r.wf(),
            r.layout == self.layout(),
            r.data@ == self@,
            r@ == self@,
            r.nrows() == self@.len(),
            r.layout.row_stride == 1,
    {
        ColRef::from_slice(self.data.as_slice())
    }

    /// Returns a mutable view over `self`. When the borrow ends the column
    /// holds what the buffer of the view holds.
    pub fn as_mut(&mut self) -> (r: ColMut<'_, T>)
        ensures
            r.wf(),
            r@ == old(self)@,
            r.data@ == old(self)@,
            r.nrows() == old(self)@.len(),
            r.layout == MatLayout::column_major_spec(old(self)@.len() as usize, 1),
            final(self)@ == final(r.data)@,
    {
        ColMut::from_slice_mut(self.data.as_mut_slice())
    }

    /// Reads the entry in row `row`.
    pub fn read(&self, row: usize) -> (r: T)
        requires
            row < self@.len(),
        ensures
            r == self@[row as int],
    {
        self.data[row]
    }

    /// Writes `value` to the entry in row `row`.
    pub fn write(&mut self, row: usize, value: T)
        requires
            row < old(self)@.len(),
        ensures
            final(self)@ == old(self)@.update(row as int, value),
    {
        self.data[row] = value;
    }

    /// A reference to the entry in row `row`.
    pub fn get(&self, row: usize) -> (r: &T)
        requires
            row < self@.len(),
        ensures
            *r == self@[row as int],
    {
        &self.data[row]
    }

    /// A copy of the column.
    pub fn cloned(&self) -> (r: Col<T>)
        ensures
            r@ == self@,
    {
        Col { data: self.as_ref().iter() }
    }

    /// A copy of the column.
    pub fn to_owned(&self) -> (r: Col<T>)
        ensures
            r@ == self@,
    {
        self.cloned()
    }

    /// The rows above `row` and the rows from `row` on.
    pub fn split_at_row(&self, row: usize) -> (r: (ColRef<'_, T>, ColRef<'_, T>))
        requires
            row <= self@.len(),
        ensures
            r.0.wf(),
            r.1.wf(),
            r.0.nrows() == row,
            r.1.nrows() == self@.len() - row,
            r.0.data@ == self@,
            r.1.data@ == self@,
            self.layout().is_window(r.0.layout, 0, 0),
            self.layout().is_window(r.1.layout, row as int, 0),
            r.0@ == self@.subrange(0, row as int),
            r.1@ == self@.subrange(row as int, self@.len() as int),
    {
        self.as_ref().split_at_row(row)
    }

    /// The column as a row.
    pub fn transpose(&self) -> (r: RowRef<'_, T>)
        ensures
            r.wf(),
            r.trans.layout == self.layout(),
            r.trans.data@ == self@,
            r@ == self@,
    {
        self.as_ref().transpose()
    }

    /// The view with the rows in reverse order.
    pub fn reverse_rows(&self) -> (r: ColRef<'_, T>)
        ensures
            r.wf(),
            r.data@ == self@,
            self.layout().is_row_reversal(r.layout),
            r@ == algebra::reversed(self@),
    {
        self.as_ref().reverse_rows()
    }

    /// The rows `row_start .. row_start + nrows`.
    pub fn subrows(&self, row_start: usize, nrows: usize) -> (r: ColRef<'_, T>)
        requires
            row_start + nrows <= self@.len(),
        ensures
            r.wf(),
            r.data@ == self@,
            self.layout().is_window(r.layout, row_start as int, 0),
            r.nrows() == nrows,
            r@ == self@.subrange(row_start as int, row_start + nrows),
    {
        self.as_ref().subrows(row_start, nrows)
    }

    /// A view under a number of rows that the caller states.
    pub fn as_row_shape(&self, nrows: usize) -> (r: ColRef<'_, T>)
        requires
            nrows == self@.len(),
        ensures
            r.wf(),
            r.layout == self.layout(),
            r.data@ == self@,
            r@ == self@,
    {
        self.as_ref()
    }

    /// A view with the number of rows as a plain number.
    pub fn as_dyn_rows(&self) -> (r: ColRef<'_, T>)
        ensures
            r.wf(),
            r.layout == self.layout(),
            r.data@ == self@,
            r@ == self@,
    {
        self.as_ref()
    }

    /// A view with the stride as a plain number.
    pub fn as_dyn_stride(&self) -> (r: ColRef<'_, T>)
        ensures
            r.wf(),
            r.layout == self.layout(),
            r.data@ == self@,
            r@ == self@,
    {
        self.as_ref()
    }

    /// The entries of the column, in order.
    pub fn iter(&self) -> (r: Vec<T>)
        ensures
            r@ == self@,
    {
        self.as_ref().iter()
    }

    /// A view of the column, whose entries are always contiguous.
    pub fn try_as_col_major(&self) -> (r: Option<ColRef<'_, T>>)
        ensures
            r.is_some(),
            r.unwrap().wf(),
            r.unwrap().layout == self.layout(),
            r.unwrap().data@ == self@,
            r.unwrap()@ == self@,
    {
        self.as_ref().try_as_col_major()
    }

    /// The column as a matrix of one column.
    pub fn as_mat(&self) -> (r: MatRef<'_, T>)
        ensures
            r.wf(),
            r.layout == self.layout(),
            r.data@ == self@,
            r.nrows() == self@.len(),
            r.ncols() == 1,
            r@ == algebra::from_column(self@),
    {
        self.as_ref().as_mat()
    }

    /// The column as the diagonal of a diagonal matrix.
    pub fn as_diagonal(&self) -> (r: DiagRef<'_, T>)
        ensures
            r.wf(),
            r.inner.layout == self.layout(),
            r.inner.data@ == self@,
            r@ == self@,
    {
        self.as_ref().as_diagonal()
    }

    /// The rows `row_start .. row_start + nrows`, mutably.
    pub fn subrows_mut(&mut self, row_start: usize, nrows: usize) -> (r: ColMut<'_, T>)
        requires
            row_start + nrows <= old(self)@.len(),
        ensures
            r.wf(),
            r.nrows() == nrows,
            r@ == old(self)@.subrange(row_start as int, row_start + nrows),
            r.data@ == old(self)@,
            MatLayout::column_major_spec(old(self)@.len() as usize, 1).is_window(
                r.layout,
                row_start as int,
                0,
            ),
            final(self)@ == final(r.data)@,
    {
        self.as_mut().subrows_mut(row_start, nrows)
    }

    /// A mutable reference to the entry in row `row`.
    pub fn get_mut(&mut self, row: usize) -> (r: &mut T)
        requires
            row < old(self)@.len(),
        ensures
            *r == old(self)@[row as int],
            final(self)@ == old(self)@.update(row as int, *final(r)),
    {
        &mut self.data[row]
    }

    /// The rows above `row` and the rows from `row` on, as two views that can
    /// be written independently. When both borrows end, having changed
    /// nothing outside their views, the column holds what the two views
    /// hold, one after the other.
    pub fn split_at_row_mut(&mut self, row: usize) -> (r: (ColMut<'_, T>, ColMut<'_, T>))
        requires
            row <= old(self)@.len(),
        ensures
            r.0.wf(),
            r.1.wf(),
            r.0.layout.row_stride == 1,
            r.1.layout.row_stride == 1,
            r.0.nrows() == row,
            r.1.nrows() == old(self)@.len() - row,
            r.0@ == old(self)@.subrange(0, row as int),
            r.1@ == old(self)@.subrange(row as int, old(self)@.len() as int),
            r.0.layout.frame(r.0.data@, final(r.0.data)@) && r.1.layout.frame(
                r.1.data@,
                final(r.1.data)@,
            ) ==> final(self)@ == r.0.layout.col_model(final(r.0.data)@) + r.1.layout.col_model(
                final(r.1.data)@,
            ),
    {
        let ghost n = self.data@.len() as usize;
        proof {
            assert forall|d: Seq<T>| d.len() == n implies #[trigger] MatLayout::column_major_spec(
                n,
                1,
            ).col_model(d) == d by {
                MatLayout::lemma_contiguous_col(n, d);
            }
        }
        self.as_mut().split_at_row_mut(row)
    }

    /// The view with the rows in reverse order, mutably.
    pub fn reverse_rows_mut(&mut self) -> (r: ColMut<'_, T>)
        ensures
            r.wf(),
            r@ == algebra::reversed(old(self)@),
            r.data@ == old(self)@,
            MatLayout::column_major_spec(old(self)@.len() as usize, 1).is_row_reversal(r.layout),
            final(self)@ == final(r.data)@,
    {
        self.as_mut().reverse_rows_mut()
    }

    /// A mutable view under a number of rows that the caller states.
    pub fn as_row_shape_mut(&mut self, nrows: usize) -> (r: ColMut<'_, T>)
        requires
            nrows == old(self)@.len(),
        ensures
            r.wf(),
            r@ == old(self)@,
            r.data@ == old(self)@,
            r.layout == MatLayout::column_major_spec(old(self)@.len() as usize, 1),
            final(self)@ == final(r.data)@,
    {
        self.as_mut()
    }

    /// A mutable view with the number of rows as a plain number.
    pub fn as_dyn_rows_mut(&mut self) -> (r: ColMut<'_, T>)
        ensures
            r.wf(),
            r@ == old(self)@,
            r.data@ == old(self)@,
            r.layout == MatLayout::column_major_spec(old(self)@.len() as usize, 1),
            final(self)@ == final(r.data)@,
    {
        self.as_mut()
    }

    /// A mutable view with the stride as a plain number.
    pub fn as_dyn_stride_mut(&mut self) -> (r: ColMut<'_, T>)
        ensures
            r.wf(),
            r@ == old(self)@,
            r.data@ == old(self)@,
            r.layout == MatLayout::column_major_spec(old(self)@.len() as usize, 1),
            final(self)@ == final(r.data)@,
    {
        self.as_mut()
    }

    /// A mutable view of the column, whose entries are always contiguous.
    pub fn try_as_col_major_mut(&mut self) -> (r: Option<ColMut<'_, T>>)
        ensures
            r.is_some(),
            r.unwrap().wf(),
            r.unwrap().layout == old(self).layout(),
            r.unwrap()@ == old(self)@,
            r.unwrap().data@ == old(self)@,
            final(self)@ == final(r.unwrap().data)@,
    {
        Some(self.as_mut())
    }

    /// The column as a matrix of one column, mutably.
    pub fn as_mat_mut(&mut self) -> (r: MatMut<'_, T>)
        ensures
            r.wf(),
            r.nrows() == old(self)@.len(),
            r.ncols() == 1,
            r@ == algebra::from_column(old(self)@),
            r.data@ == old(self)@,
            r.layout == MatLayout::column_major_spec(old(self)@.len() as usize, 1),
            final(self)@ == final(r.data)@,
    {
        self.as_mut().as_mat_mut()
    }

    /// The column as a row, mutably.
    pub fn transpose_mut(&mut self) -> (r: RowMut<'_, T>)
        ensures
            r.wf(),
            r.trans.layout == old(self).layout(),
            r@ == old(self)@,
            r.trans.data@ == old(self)@,
            final(self)@ == final(r.trans.data)@,
    {
        self.as_mut().transpose_mut()
    }

    /// The column as the diagonal of a diagonal matrix, mutably.
    pub fn as_diagonal_mut(&mut self) -> (r: DiagMut<'_, T>)
        ensures
            r.wf(),
            r.inner.layout == old(self).layout(),
            r@ == old(self)@,
            r.inner.data@ == old(self)@,
            final(self)@ == final(r.inner.data)@,
    {
        self.as_mut().as_diagonal_mut()
    }

    /// Copies the entries of `other` into `self`.
    pub fn copy_from(&mut self, other: ColRef<'_, T>)
        requires
            other.wf(),
            old(self)@.len() == other.nrows(),
        ensures
            final(self)@ == other@,
    {
        let n = self.data.len();
        let mut i: usize = 0;
        while i < n
            invariant
                i <= n,
                n == other.nrows(),
                other.wf(),
                self.data@.len() == n,
                forall|a: int| 0 <= a < i ==> #[trigger] self.data@[a] == other@[a],
            decreases n - i,
        {
            self.data[i] = other.read(i);
            i += 1;
        }
        proof {
            assert(self@ =~= other@);
        }
    }
}

impl<T: ComplexField> Col<T> {
    /// The conjugate of the column, as the kernels take it: a view of the
    /// stored entries with the flag that has them read conjugated.
    pub fn conjugate(&self) -> (r: (ColRef<'_, T>, Conj))
        ensures
            r.0.wf(),
            r.0.layout == self.layout(),
            r.0.data@ == self@,
            r.0@ == self@,
            r.1 == Conj::Yes,
    {
        self.as_ref().conjugate()
    }

    /// A view of the entries as they are stored.
    pub fn canonical(&self) -> (r: ColRef<'_, T>)
        ensures
            r.wf(),
            r.layout == self.layout(),
            r.data@ == self@,
            r@ == self@,
    {
        self.as_ref().canonical()
    }

    /// The conjugate transpose of the column, as the kernels take it: a row
    /// view of the stored entries with the flag that has them read
    /// conjugated.
    pub fn adjoint(&self) -> (r: (RowRef<'_, T>, Conj))
        ensures
            r.0.wf(),
            r.0.trans.layout == self.layout(),
            r.0.trans.data@ == self@,
            r.0@ == self@,
            r.1 == Conj::Yes,
    {
        self.as_ref().adjoint()
    }

    /// The conjugate of the column, as the kernels take it: a mutable view
    /// of the stored entries with the flag that has them read conjugated.
    pub fn conjugate_mut(&mut self) -> (r: (ColMut<'_, T>, Conj))
        ensures
            r.0.wf(),
            r.0.layout == old(self).layout(),
            r.0.data@ == old(self)@,
            r.0@ == old(self)@,
            r.1 == Conj::Yes,
            final(self)@ == final(r.0.data)@,
    {
        self.as_mut().conjugate_mut()
    }

    /// A mutable view of the entries as they are stored.
    pub fn canonical_mut(&mut self) -> (r: ColMut<'_, T>)
        ensures
            r.wf(),
            r.layout == old(self).layout(),
            r.data@ == old(self)@,
            r@ == old(self)@,
            final(self)@ == final(r.data)@,
    {
        self.as_mut().canonical_mut()
    }

    /// The conjugate transpose of the column, as the kernels take it: a
    /// mutable row view of the stored entries with the flag that has them
    /// read conjugated.
    pub fn adjoint_mut(&mut self) -> (r: (RowMut<'_, T>, Conj))
        ensures
            r.0.wf(),
            r.0.trans.layout == old(self).layout(),
            r.0.trans.data@ == old(self)@,
            r.0@ == old(self)@,
            r.1 == Conj::Yes,
            final(self)@ == final(r.0.trans.data)@,
    {
        self.as_mut().adjoint_mut()
    }

    /// Returns a new column with dimension `nrows`, filled with zeros.
    pub fn zeros(nrows: usize) -> (r: Self)
        ensures
            r@ == Seq::new(nrows as nat, |i: int| T::zero_spec()),
    {
        Col::full(nrows, T::zero_impl())
    }

    /// Returns a new column with dimension `nrows`, filled with ones.
    pub fn ones(nrows: usize) -> (r: Self)
        ensures
            r@ == Seq::new(nrows as nat, |i: int| T::one_spec()),
    {
        Col::full(nrows, T::one_impl())
    }

    /// The largest modulus among the entries.
    pub fn norm_max(&self) -> (r: T::Real)
        ensures
            r == reductions::norm_max_spec(self@, self@.len() as int),
    {
        reductions::norm_max(self.as_ref())
    }

    /// The Euclidean norm.
    pub fn norm_l2(&self) -> (r: T::Real)
        ensures
            r == reductions::norm_l2_spec(self@),
    {
        reductions::norm_l2(self.as_ref())
    }

    /// The squared Euclidean norm.
    pub fn squared_norm_l2(&self) -> (r: T::Real)
        ensures
            r == reductions::squared_norm_l2_spec(self@, self@.len() as int),
    {
        reductions::squared_norm_l2(self.as_ref())
    }

    /// The sum of the moduli of the entries.
    pub fn norm_l1(&self) -> (r: T::Real)
        ensures
            r == reductions::norm_l1_spec(self@, self@.len() as int),
    {
        reductions::norm_l1(self.as_ref())
    }

    /// The sum of the entries.
    pub fn sum(&self) -> (r: T)
        ensures
            r == reductions::sum_spec(self@, self@.len() as int),
    {
        reductions::sum(self.as_ref())
    }
}

} // verus!
