//! Immutable strided column view.
use crate::algebra;
use crate::diag::diagref::DiagRef;
use crate::layout::MatLayout;
use crate::mat::matref::MatRef;
use crate::row::rowref::RowRef;
use crate::scalar::{ComplexField, Conj};
use vstd::prelude::*;

verus! {

/// Immutable view over a column stored in a flat buffer.
pub struct ColRef<'a, T> {
    /// The buffer the view reads from.
    pub data: &'a [T],
    /// Where the entries of the view lie in the buffer; it has one column.
    pub layout: MatLayout,
}

impl<'a, T> Clone for ColRef<'a, T> {
    fn clone(&self) -> (r: Self)
        ensures
            r == *self,
    {
        *self
    }
}

impl<'a, T> Copy for ColRef<'a, T> {

}

impl<'a, T: Copy> ColRef<'a, T> {
    /// The view addresses distinct positions inside its buffer.
    pub open spec fn wf(&self) -> bool {
        self.layout.col_wf(self.data@.len())
    }

    /// The logical column.
    pub open spec fn view(&self) -> Seq<T> {
        self.layout.col_model(self.data@)
    }

    pub open spec fn spec_nrows(&self) -> usize {
        self.layout.nrows
    }

    /// Views a slice as a column with contiguous entries.
    pub fn from_slice(slice: &'a [T]) -> (r: Self)
        ensures
            r.wf(),
            r@ == slice@,
            r.data@ == slice@,
            r.nrows() == slice@.len(),
            r.layout == MatLayout::column_major_spec(slice@.len() as usize, 1),
            r.layout.row_stride == 1,
    {
        let len = slice.len();
        proof {
            assert(len * 1 == len) by (nonlinear_arith);
        }
        let layout = MatLayout::column_major(len, 1);
        let r = ColRef { data: slice, layout };
        proof {
            assert forall|i: int| 0 <= i < len implies r@[i] == slice@[i] by {
                assert(layout.has(i, 0));
                assert(layout.idx(i, 0) == i + 0 * len);
            }
            assert(r@ =~= slice@);
        }
        r
    }

    /// Number of rows.
    #[verifier::when_used_as_spec(spec_nrows)]
    pub fn nrows(&self) -> (r: usize)
        ensures
            r == self.layout.nrows,
    {
        self.layout.nrows
    }

    /// Number of columns: always one.
    pub fn ncols(&self) -> (r: usize)
        ensures
            r == 1,
    {
        1
    }

    /// Number of rows and of columns.
    pub fn shape(&self) -> (r: (usize, usize))
        ensures
            r == (self.layout.nrows, 1usize),
    {
        (self.layout.nrows, 1)
    }

    /// Distance between consecutive entries, in elements.
    pub fn row_stride(&self) -> (r: isize)
        ensures
            r == self.layout.row_stride,
    {
        self.layout.row_stride
    }

    /// Reads the entry in row `row`.
    pub fn read(&self, row: usize) -> (r: T)
        requires
            self.wf(),
            row < self.nrows(),
        ensures
            r == self@[row as int],
    {
        proof {
            self.layout.lemma_addressable(self.data@.len(), row as int, 0);
        }
        let k = self.layout.offset(row, 0);
        self.data[k]
    }

    /// A reference to the entry in row `row`.
    pub fn get(self, row: usize) -> (r: &'a T)
        requires
            self.wf(),
            row < self.nrows(),
        ensures
            *r == self@[row as int],
    {
        proof {
            self.layout.lemma_addressable(self.data@.len(), row as int, 0);
        }
        let k = self.layout.offset(row, 0);
        &self.data[k]
    }

    /// The rows `row_start .. row_start + nrows`.
    pub fn subrows(self, row_start: usize, nrows: usize) -> (r: Self)
        requires
            self.wf(),
            row_start + nrows <= self.nrows(),
        ensures
            r.wf(),
            r.nrows() == nrows,
            r.data@ == self.data@,
            self.layout.is_window(r.layout, row_start as int, 0),
            r@ == self@.subrange(row_start as int, row_start + nrows),
    {
        let layout = self.layout.window(row_start, 0, nrows, 1, Ghost(self.data@.len()));
        proof {
            self.layout.lemma_col_window_model(layout, row_start as int, self.data@);
        }
        ColRef { data: self.data, layout }
    }

    /// The rows above `row` and the rows from `row` on.
    pub fn split_at_row(self, row: usize) -> (r: (Self, Self))
        requires
            self.wf(),
            row <= self.nrows(),
        ensures
            r.0.wf(),
            r.1.wf(),
            r.0.nrows() == row,
            r.1.nrows() == self.nrows() - row,
            r.0.data@ == self.data@,
            r.1.data@ == self.data@,
            self.layout.is_window(r.0.layout, 0, 0),
            self.layout.is_window(r.1.layout, row as int, 0),
            r.0@ == self@.subrange(0, row as int),
            r.1@ == self@.subrange(row as int, self.nrows() as int),
    {
        let rest = self.nrows() - row;
        (self.subrows(0, row), self.subrows(row, rest))
    }

    /// The view with the rows in reverse order: no element is moved.
    pub fn reverse_rows(self) -> (r: Self)
        requires
            self.wf(),
        ensures
            r.wf(),
            r.nrows() == self.nrows(),
            r.data@ == self.data@,
            self.layout.is_row_reversal(r.layout),
            r@ == algebra::reversed(self@),
    {
        let layout = self.layout.reverse_rows(Ghost(self.data@.len()));
        proof {
            self.layout.lemma_col_reversal_model(layout, self.data@);
        }
        ColRef { data: self.data, layout }
    }

    /// The same view, under a number of rows that the caller states.
    pub fn as_row_shape(self, nrows: usize) -> (r: Self)
        requires
            nrows == self.nrows(),
        ensures
            r == self,
    {
        self
    }

    /// The same view, with its number of rows as a plain number.
    pub fn as_dyn_rows(self) -> (r: Self)
        ensures
            r == self,
    {
        self
    }

    /// The same view, with its stride as a plain number.
    pub fn as_dyn_stride(self) -> (r: Self)
        ensures
            r == self,
    {
        self
    }

    /// The same view.
    pub fn as_ref(&self) -> (r: ColRef<'_, T>)
        ensures
            r.layout == self.layout,
            r.data@ == self.data@,
    {
        ColRef { data: self.data, layout: self.layout }
    }

    /// The view, if its entries are contiguous in memory.
    pub fn try_as_col_major(self) -> (r: Option<Self>)
        ensures
            r == if self.layout.row_stride == 1 {
                Some(self)
            } else {
                None::<Self>
            },
    {
        if self.layout.row_stride == 1 {
            Some(self)
        } else {
            None
        }
    }

    /// The entries of the column, in order.
    pub fn iter(self) -> (r: Vec<T>)
        requires
            self.wf(),
        ensures
            r@ == self@,
    {
        let n = self.nrows();
        let mut out: Vec<T> = Vec::new();
        let mut i: usize = 0;
        while i < n
            invariant
                i <= n,
                n == self.nrows(),
                self.wf(),
                out@ == self@.subrange(0, i as int),
            decreases n - i,
        {
            out.push(self.read(i));
            proof {
                assert(out@ =~= self@.subrange(0, i + 1));
            }
            i += 1;
        }
        proof {
            assert(self@.subrange(0, n as int) =~= self@);
        }
        out
    }

    /// The column as a matrix of one column.
    pub fn as_mat(self) -> (r: MatRef<'a, T>)
        requires
            self.wf(),
        ensures
            r.wf(),
            r.nrows() == self.nrows(),
            r.ncols() == 1,
            r.layout == self.layout,
            r.data@ == self.data@,
            r@ == algebra::from_column(self@),
    {
        proof {
            self.layout.lemma_col_model(self.data@);
        }
        MatRef { data: self.data, layout: self.layout }
    }

    /// The column as a row: the transposed view.
    pub fn transpose(self) -> (r: RowRef<'a, T>)
        ensures
            r.trans == self,
    {
        RowRef { trans: self }
    }

    /// The column as the diagonal of a diagonal matrix.
    pub fn as_diagonal(self) -> (r: DiagRef<'a, T>)
        ensures
            r.inner == self,
    {
        DiagRef { inner: self }
    }
}

impl<'a, T: Copy> core::ops::Index<usize> for ColRef<'a, T> {
    type Output = T;

    fn index(&self, row: usize) -> (r: &T)
        ensures
            *r == self@[row as int],
    {
        self.get(row)
    }
}

impl<'a, T: Copy> vstd::std_specs::core::IndexSpecImpl<usize> for ColRef<'a, T> {
    open spec fn index_req(&self, index: &usize) -> bool {
        self.wf() && *index < self.nrows()
    }
}

impl<'a, T: ComplexField> ColRef<'a, T> {
    /// The conjugate of the column, as the kernels take it: the view of the
    /// stored entries with the flag that has them read conjugated. No
    /// element is moved or changed.
    pub fn conjugate(self) -> (r: (ColRef<'a, T>, Conj))
        ensures
            r.0 == self,
            r.1 == Conj::Yes,
    {
        (self, Conj::Yes)
    }

    /// The view of the entries as they are stored.
    pub fn canonical(self) -> (r: ColRef<'a, T>)
        ensures
            r == self,
    {
        self
    }

    /// The conjugate transpose of the column, as the kernels take it: the
    /// row view of the stored entries with the flag that has them read
    /// conjugated.
    pub fn adjoint(self) -> (r: (RowRef<'a, T>, Conj))
        ensures
            r.0.trans == self,
            r.1 == Conj::Yes,
    {
        (RowRef { trans: self }, Conj::Yes)
    }

    /// Returns the maximum norm of `self`.
    pub fn norm_max(&self) -> (r: T::Real)
        requires
            self.wf(),
        ensures
            r == crate::linalg::reductions::norm_max_spec(self@, self@.len() as int),
    {
        crate::linalg::reductions::norm_max(*self)
    }

    /// Returns the Euclidean norm of `self`.
    pub fn norm_l2(&self) -> (r: T::Real)
        requires
            self.wf(),
        ensures
            r == crate::linalg::reductions::norm_l2_spec(self@),
    {
        crate::linalg::reductions::norm_l2(*self)
    }

    /// Returns the sum of `self`.
    pub fn sum(&self) -> (r: T)
        requires
            self.wf(),
        ensures
            r == crate::linalg::reductions::sum_spec(self@, self@.len() as int),
    {
        crate::linalg::reductions::sum(*self)
    }
}

} // verus!
