//! Immutable strided matrix view.
use crate::algebra;
use crate::col::colref::ColRef;
use crate::layout::MatLayout;
use vstd::prelude::*;

verus! {

/// Immutable view over a matrix stored in a flat buffer.
pub struct MatRef<'a, T> {
    /// The buffer the view reads from.
    pub data: &'a [T],
    /// Where the entries of the view lie in the buffer.
    pub layout: MatLayout,
}

impl<'a, T> Clone for MatRef<'a, T> {
    fn clone(&self) -> (r: Self)
        ensures
            r == *self,
    {
        *self
    }
}

impl<'a, T> Copy for MatRef<'a, T> {

}

impl<'a, T: Copy> MatRef<'a, T> {
    /// The view addresses distinct positions inside its buffer.
    pub open spec fn wf(&self) -> bool {
        self.layout.wf(self.data@.len())
    }

    /// The logical matrix, as a sequence of rows.
    pub open spec fn view(&self) -> Seq<Seq<T>> {
        self.layout.model(self.data@)
    }

    pub open spec fn spec_nrows(&self) -> usize {
        self.layout.nrows
    }

    pub open spec fn spec_ncols(&self) -> usize {
        self.layout.ncols
    }

    /// Views a slice that stores `nrows * ncols` elements column after column.
    pub fn from_column_major_slice(data: &'a [T], nrows: usize, ncols: usize) -> (r: Self)
        requires
            nrows * ncols == data@.len(),
        ensures
            r.wf(),
            r.nrows() == nrows,
            r.ncols() == ncols,
            r.data@ == data@,
            r.layout == MatLayout::column_major_spec(nrows, ncols),
            forall|i: int, j: int|
                0 <= i < nrows && 0 <= j < ncols ==> #[trigger] r@[i][j] == data@[i + j * nrows],
    {
        let len = data.len();
        let layout = MatLayout::column_major(nrows, ncols);
        MatRef { data, layout }
    }

    /// Views a slice that stores `nrows * ncols` elements row after row.
    pub fn from_row_major_slice(data: &'a [T], nrows: usize, ncols: usize) -> (r: Self)
        requires
            nrows * ncols == data@.len(),
        ensures
            r.wf(),
            r.nrows() == nrows,
            r.ncols() == ncols,
            r.data@ == data@,
            r.layout == MatLayout::column_major_spec(ncols, nrows).transposed(),
            forall|i: int, j: int|
                0 <= i < nrows && 0 <= j < ncols ==> #[trigger] r@[i][j] == data@[j + i * ncols],
    {
        let len = data.len();
        proof {
            assert(ncols * nrows == nrows * ncols) by (nonlinear_arith);
        }
        let cm = MatLayout::column_major(ncols, nrows);
        let layout = cm.transpose();
        proof {
            cm.lemma_transpose(layout, data@.len());
        }
        MatRef { data, layout }
    }

    /// Number of rows.
    #[verifier::when_used_as_spec(spec_nrows)]
    pub fn nrows(&self) -> (r: usize)
        ensures
            r == self.layout.nrows,
    {
        self.layout.nrows
    }

    /// Number of columns.
    #[verifier::when_used_as_spec(spec_ncols)]
    pub fn ncols(&self) -> (r: usize)
        ensures
            r == self.layout.ncols,
    {
        self.layout.ncols
    }

    /// Distance between consecutive rows, in elements.
    pub fn row_stride(&self) -> (r: isize)
        ensures
            r == self.layout.row_stride,
    {
        self.layout.row_stride
    }

    /// Distance between consecutive columns, in elements.
    pub fn col_stride(&self) -> (r: isize)
        ensures
            r == self.layout.col_stride,
    {
        self.layout.col_stride
    }

    /// Reads the entry in row `i` and column `j`.
    pub fn read(&self, i: usize, j: usize) -> (r: T)
        requires
            self.wf(),
            i < self.nrows(),
            j < self.ncols(),
        ensures
            r == self@[i as int][j as int],
    {
        proof {
            self.layout.lemma_addressable(self.data@.len(), i as int, j as int);
        }
        let k = self.layout.offset(i, j);
        self.data[k]
    }

    /// The window of `nrows` by `ncols` entries whose first entry is
    /// `(row_start, col_start)`.
    pub fn submatrix(self, row_start: usize, col_start: usize, nrows: usize, ncols: usize) -> (r:
        Self)
        requires
            self.wf(),
            row_start + nrows <= self.nrows(),
            col_start + ncols <= self.ncols(),
        ensures
            r.wf(),
            r.nrows() == nrows,
            r.ncols() == ncols,
            r.data@ == self.data@,
            self.layout.is_window(r.layout, row_start as int, col_start as int),
            r@ == algebra::window(
                self@,
                row_start as int,
                col_start as int,
                nrows as nat,
                ncols as nat,
            ),
    {
        let layout = self.layout.window(
            row_start,
            col_start,
            nrows,
            ncols,
            Ghost(self.data@.len()),
        );
        proof {
            self.layout.lemma_window_model(layout, row_start as int, col_start as int, self.data@);
        }
        MatRef { data: self.data, layout }
    }

    /// The rows `row_start .. row_start + nrows`.
    pub fn subrows(self, row_start: usize, nrows: usize) -> (r: Self)
        requires
            self.wf(),
            row_start + nrows <= self.nrows(),
        ensures
            r.wf(),
            r.nrows() == nrows,
            r.ncols() == self.ncols(),
            r.data@ == self.data@,
            self.layout.is_window(r.layout, row_start as int, 0),
            r@ == algebra::window(self@, row_start as int, 0, nrows as nat, self.ncols() as nat),
    {
        let ncols = self.ncols();
        self.submatrix(row_start, 0, nrows, ncols)
    }

    /// The columns `col_start .. col_start + ncols`.
    pub fn subcols(self, col_start: usize, ncols: usize) -> (r: Self)
        requires
            self.wf(),
            col_start + ncols <= self.ncols(),
        ensures
            r.wf(),
            r.nrows() == self.nrows(),
            r.ncols() == ncols,
            r.data@ == self.data@,
            self.layout.is_window(r.layout, 0, col_start as int),
            r@ == algebra::window(self@, 0, col_start as int, self.nrows() as nat, ncols as nat),
    {
        let nrows = self.nrows();
        self.submatrix(0, col_start, nrows, ncols)
    }

    /// The rows above `row` and the rows from `row` on.
    pub fn split_at_row(self, row: usize) -> (r: (Self, Self))
        requires
            self.wf(),
            row <= self.nrows(),
        ensures
            r.0.wf(),
            r.1.wf(),
            r.0.nrows() == row,
            r.1.nrows() == self.nrows() - row,
            r.0.ncols() == self.ncols(),
            r.1.ncols() == self.ncols(),
            self.layout.is_window(r.0.layout, 0, 0),
            self.layout.is_window(r.1.layout, row as int, 0),
            r.0@ == algebra::window(self@, 0, 0, row as nat, self.ncols() as nat),
            r.1@ == algebra::window(
                self@,
                row as int,
                0,
                (self.nrows() - row) as nat,
                self.ncols() as nat,
            ),
    {
        let rest = self.nrows() - row;
        (self.subrows(0, row), self.subrows(row, rest))
    }

    /// The columns left of `col` and the columns from `col` on.
    pub fn split_at_col(self, col: usize) -> (r: (Self, Self))
        requires
            self.wf(),
            col <= self.ncols(),
        ensures
            r.0.wf(),
            r.1.wf(),
            r.0.ncols() == col,
            r.1.ncols() == self.ncols() - col,
            r.0.nrows() == self.nrows(),
            r.1.nrows() == self.nrows(),
            self.layout.is_window(r.0.layout, 0, 0),
            self.layout.is_window(r.1.layout, 0, col as int),
            r.0@ == algebra::window(self@, 0, 0, self.nrows() as nat, col as nat),
            r.1@ == algebra::window(
                self@,
                0,
                col as int,
                self.nrows() as nat,
                (self.ncols() - col) as nat,
            ),
    {
        let rest = self.ncols() - col;
        (self.subcols(0, col), self.subcols(col, rest))
    }

    /// The transposed view: no element is moved.
    pub fn transpose(self) -> (r: Self)
        requires
            self.wf(),
        ensures
            r.wf(),
            r.nrows() == self.ncols(),
            r.ncols() == self.nrows(),
            r.data@ == self.data@,
            r.layout == self.layout.transposed(),
            r@ == algebra::transpose(self@, self.ncols() as nat),
    {
        let layout = self.layout.transpose();
        proof {
            self.layout.lemma_transpose(layout, self.data@.len());
            self.layout.lemma_transpose_model(layout, self.data@);
        }
        MatRef { data: self.data, layout }
    }

    /// The view with the rows in reverse order: no element is moved.
    pub fn reverse_rows(self) -> (r: Self)
        requires
            self.wf(),
        ensures
            r.wf(),
            r.nrows() == self.nrows(),
            r.ncols() == self.ncols(),
            r.data@ == self.data@,
            self.layout.is_row_reversal(r.layout),
            r@ == algebra::reverse_rows(self@),
    {
        let layout = self.layout.reverse_rows(Ghost(self.data@.len()));
        proof {
            self.layout.lemma_row_reversal(layout, self.data@);
        }
        MatRef { data: self.data, layout }
    }

    /// The view with the columns in reverse order: no element is moved.
    pub fn reverse_cols(self) -> (r: Self)
        requires
            self.wf(),
        ensures
            r.wf(),
            r.nrows() == self.nrows(),
            r.ncols() == self.ncols(),
            r.data@ == self.data@,
            self.layout.transposed().is_row_reversal(r.layout.transposed()),
            r@ == algebra::reverse_cols(self@),
    {
        let r = self.transpose().reverse_rows().transpose();
        proof {
            assert(r@ =~~= algebra::reverse_cols(self@));
        }
        r
    }

    /// The view with both the rows and the columns in reverse order.
    pub fn reverse_rows_and_cols(self) -> (r: Self)
        requires
            self.wf(),
        ensures
            r.wf(),
            r.nrows() == self.nrows(),
            r.ncols() == self.ncols(),
            r.data@ == self.data@,
            r.layout.row_stride == -self.layout.row_stride,
            r.layout.col_stride == -self.layout.col_stride,
            r@ == algebra::reverse_cols(algebra::reverse_rows(self@)),
    {
        self.reverse_rows().reverse_cols()
    }

    /// Column `j` of the matrix.
    pub fn col(self, j: usize) -> (r: ColRef<'a, T>)
        requires
            self.wf(),
            j < self.ncols(),
        ensures
            r.wf(),
            r.nrows() == self.nrows(),
            r.data@ == self.data@,
            self.layout.is_window(r.layout, 0, j as int),
            r@ == algebra::column(self@, j as int),
    {
        let layout = self.layout.window(0, j, self.layout.nrows, 1, Ghost(self.data@.len()));
        let r = ColRef { data: self.data, layout };
        proof {
            assert forall|i: int| 0 <= i < layout.nrows implies r@[i] == self@[i][j as int] by {
                assert(layout.has(i, 0));
            }
            assert(r@ =~= algebra::column(self@, j as int));
        }
        r
    }
}

} // verus!
