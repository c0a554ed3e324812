//! Mutable strided matrix view.
//!
//! A function that takes a `MatMut` by value states its effect on the buffer
//! the view borrows: with `d` the content of the buffer when the borrow ends,
//! `m.layout.frame(m.data@, d)` says that nothing outside the view changed
//! and `m.layout.model(d)` is the logical matrix the view ends with.
use crate::algebra;
use crate::col::colmut::ColMut;
use crate::layout::MatLayout;
use crate::mat::matref::MatRef;
use vstd::prelude::*;

verus! {

/// Mutable view over a matrix stored in a flat buffer.
pub struct MatMut<'a, T> {
    /// The buffer the view reads from and writes to.
    pub data: &'a mut [T],
    /// Where the entries of the view lie in the buffer.
    pub layout: MatLayout,
}

impl<'a, T: Copy> MatMut<'a, T> {
    /// The view addresses distinct positions inside its buffer.
    pub open spec fn wf(&self) -> bool {
        self.layout.wf(self.data@.len())
    }

    /// The logical matrix, as a sequence of rows.
    pub open spec fn view(&self) -> Seq<Seq<T>> {
        self.layout.model(self.data@)
    }

    pub open spec fn spec_nrows(&self) -> usize {
        self.layout.nrows
    }

    pub open spec fn spec_ncols(&self) -> usize {
        self.layout.ncols
    }

    /// `self` is the state of the view `before` after some writes through it:
    /// same layout, and a buffer that differs only where the view has entries.
    pub open spec fn evolved_from(&self, before: &Self) -> bool {
        &&& self.layout == before.layout
        &&& before.layout.frame(before.data@, self.data@)
    }

    /// Views a slice that stores `nrows * ncols` elements column after column.
    pub fn from_column_major_slice_mut(data: &'a mut [T], nrows: usize, ncols: usize) -> (r:
        Self)
        requires
            nrows * ncols == old(data)@.len(),
        ensures
            r.wf(),
            r.nrows() == nrows,
            r.ncols() == ncols,
            r.data@ == old(data)@,
            final(r.data)@ == final(data)@,
            r.layout == MatLayout::column_major_spec(nrows, ncols),
            forall|i: int, j: int|
                r.layout.has(i, j) ==> #[trigger] r.layout.idx(i, j) == i + j * nrows,
    {
        let len = data.len();
        let layout = MatLayout::column_major(nrows, ncols);
        MatMut { data, layout }
    }

    /// Views a slice that stores `nrows * ncols` elements row after row.
    pub fn from_row_major_slice_mut(data: &'a mut [T], nrows: usize, ncols: usize) -> (r: Self)
        requires
            nrows * ncols == old(data)@.len(),
        ensures
            r.wf(),
            r.nrows() == nrows,
            r.ncols() == ncols,
            r.data@ == old(data)@,
            final(r.data)@ == final(data)@,
            r.layout == MatLayout::column_major_spec(ncols, nrows).transposed(),
            forall|i: int, j: int|
                r.layout.has(i, j) ==> #[trigger] r.layout.idx(i, j) == j + i * ncols,
    {
        let len = data.len();
        proof {
            assert(ncols * nrows == nrows * ncols) by (nonlinear_arith);
        }
        let cm = MatLayout::column_major(ncols, nrows);
        let layout = cm.transpose();
        proof {
            cm.lemma_transpose(layout, len as nat);
            assert forall|i: int, j: int| layout.has(i, j) implies #[trigger] layout.idx(i, j)
                == j + i * ncols by {
                assert(cm.has(j, i));
                assert(layout.idx(i, j) == cm.idx(j, i));
            }
        }
        MatMut { data, layout }
    }

    /// Number of rows.
    #[verifier::when_used_as_spec(spec_nrows)]
    pub fn nrows(&self) -> (r: usize)
        ensures
            r == self.layout.nrows,
    {
        self.layout.nrows
    }

    /// Number of columns.
    #[verifier::when_used_as_spec(spec_ncols)]
    pub fn ncols(&self) -> (r: usize)
        ensures
            r == self.layout.ncols,
    {
        self.layout.ncols
    }

    /// Distance between consecutive rows, in elements.
    pub fn row_stride(&self) -> (r: isize)
        ensures
            r == self.layout.row_stride,
    {
        self.layout.row_stride
    }

    /// Distance between consecutive columns, in elements.
    pub fn col_stride(&self) -> (r: isize)
        ensures
            r == self.layout.col_stride,
    {
        self.layout.col_stride
    }

    /// Reads the entry in row `i` and column `j`.
    pub fn read(&self, i: usize, j: usize) -> (r: T)
        requires
            self.wf(),
            i < self.nrows(),
            j < self.ncols(),
        ensures
            r == self@[i as int][j as int],
    {
        proof {
            self.layout.lemma_addressable(self.data@.len(), i as int, j as int);
        }
        let k = self.layout.offset(i, j);
        self.data[k]
    }

    /// Writes `value` to the entry in row `i` and column `j`.
    pub fn write(&mut self, i: usize, j: usize, value: T)
        requires
            old(self).wf(),
            i < old(self).nrows(),
            j < old(self).ncols(),
        ensures
            final(self).wf(),
            final(self).evolved_from(old(self)),
            final(self)@ == old(self)@.update(i as int, old(self)@[i as int].update(j as int, value)),
            final(final(self).data)@ == final(old(self).data)@,
    {
        proof {
            self.layout.lemma_addressable(self.data@.len(), i as int, j as int);
        }
        let k = self.layout.offset(i, j);
        self.data[k] = value;
        proof {
            let lay = self.layout;
            assert(lay.has(i as int, j as int));
            assert(self@ =~~= old(self)@.update(
                i as int,
                old(self)@[i as int].update(j as int, value),
            )) by {
                assert forall|a: int, b: int| lay.has(a, b) implies self@[a][b] == old(
                    self,
                )@.update(i as int, old(self)@[i as int].update(j as int, value))[a][b] by {
                    if lay.idx(a, b) == lay.idx(i as int, j as int) {
                        assert(a == i && b == j);
                    }
                }
            }
        }
    }

    /// An immutable view of the same entries.
    pub fn rb(&self) -> (r: MatRef<'_, T>)
        ensures
            r.layout == self.layout,
            r.data@ == old(self.data)@,
            r@ == self@,
            r.wf() == self.wf(),
    {
        MatRef { data: &*self.data, layout: self.layout }
    }

    /// A mutable view of the same entries that lives shorter than `self`.
    pub fn rb_mut(&mut self) -> (r: MatMut<'_, T>)
        ensures
            r.layout == old(self).layout,
            r.data@ == old(self).data@,
            final(self).layout == old(self).layout,
            final(self).data@ == final(r.data)@,
            final(final(self).data)@ == final(old(self).data)@,
    {
        MatMut { data: &mut *self.data, layout: self.layout }
    }

    /// Gives up the right to write.
    pub fn into_const(self) -> (r: MatRef<'a, T>)
        ensures
            r.layout == self.layout,
            r.data@ == old(self.data)@,
            final(self.data)@ == old(self.data)@,
    {
        MatRef { data: &*self.data, layout: self.layout }
    }

    /// The window of `nrows` by `ncols` entries whose first entry is
    /// `(row_start, col_start)`.
    pub fn submatrix_mut(
        self,
        row_start: usize,
        col_start: usize,
        nrows: usize,
        ncols: usize,
    ) -> (r: Self)
        requires
            self.wf(),
            row_start + nrows <= self.nrows(),
            col_start + ncols <= self.ncols(),
        ensures
            r.wf(),
            r.nrows() == nrows,
            r.ncols() == ncols,
            r.data@ == old(self.data)@,
            final(r.data)@ == final(self.data)@,
            self.layout.is_window(r.layout, row_start as int, col_start as int),
            r@ == algebra::window(
                self@,
                row_start as int,
                col_start as int,
                nrows as nat,
                ncols as nat,
            ),
    {
        let layout = self.layout.window(
            row_start,
            col_start,
            nrows,
            ncols,
            Ghost(self.data@.len()),
        );
        proof {
            self.layout.lemma_window_model(layout, row_start as int, col_start as int, self.data@);
        }
        MatMut { data: self.data, layout }
    }

    /// The rows `row_start .. row_start + nrows`.
    pub fn subrows_mut(self, row_start: usize, nrows: usize) -> (r: Self)
        requires
            self.wf(),
            row_start + nrows <= self.nrows(),
        ensures
            r.wf(),
            r.nrows() == nrows,
            r.ncols() == self.ncols(),
            r.data@ == old(self.data)@,
            final(r.data)@ == final(self.data)@,
            self.layout.is_window(r.layout, row_start as int, 0),
            r@ == algebra::window(self@, row_start as int, 0, nrows as nat, self.ncols() as nat),
    {
        let ncols = self.ncols();
        self.submatrix_mut(row_start, 0, nrows, ncols)
    }

    /// The columns `col_start .. col_start + ncols`.
    pub fn subcols_mut(self, col_start: usize, ncols: usize) -> (r: Self)
        requires
            self.wf(),
            col_start + ncols <= self.ncols(),
        ensures
            r.wf(),
            r.nrows() == self.nrows(),
            r.ncols() == ncols,
            r.data@ == old(self.data)@,
            final(r.data)@ == final(self.data)@,
            self.layout.is_window(r.layout, 0, col_start as int),
            r@ == algebra::window(self@, 0, col_start as int, self.nrows() as nat, ncols as nat),
    {
        let nrows = self.nrows();
        self.submatrix_mut(0, col_start, nrows, ncols)
    }

    /// The transposed view: no element is moved.
    pub fn transpose_mut(self) -> (r: Self)
        requires
            self.wf(),
        ensures
            r.wf(),
            r.nrows() == self.ncols(),
            r.ncols() == self.nrows(),
            r.data@ == old(self.data)@,
            final(r.data)@ == final(self.data)@,
            self.layout.is_transpose(r.layout),
            r@ == algebra::transpose(self@, self.ncols() as nat),
    {
        let layout = self.layout.transpose();
        proof {
            self.layout.lemma_transpose(layout, self.data@.len());
            self.layout.lemma_transpose_model(layout, self.data@);
        }
        MatMut { data: self.data, layout }
    }

    /// The view with the rows in reverse order: no element is moved.
    pub fn reverse_rows_mut(self) -> (r: Self)
        requires
            self.wf(),
        ensures
            r.wf(),
            r.nrows() == self.nrows(),
            r.ncols() == self.ncols(),
            r.data@ == old(self.data)@,
            final(r.data)@ == final(self.data)@,
            self.layout.is_row_reversal(r.layout),
            r@ == algebra::reverse_rows(self@),
    {
        let layout = self.layout.reverse_rows(Ghost(self.data@.len()));
        proof {
            self.layout.lemma_row_reversal(layout, self.data@);
        }
        MatMut { data: self.data, layout }
    }

    /// Column `j` of the matrix.
    pub fn col_mut(self, j: usize) -> (r: ColMut<'a, T>)
        requires
            self.wf(),
            j < self.ncols(),
        ensures
            r.wf(),
            r.nrows() == self.nrows(),
            r.data@ == old(self.data)@,
            final(r.data)@ == final(self.data)@,
            self.layout.is_window(r.layout, 0, j as int),
            r@ == algebra::column(self@, j as int),
    {
        let layout = self.layout.window(0, j, self.layout.nrows, 1, Ghost(self.data@.len()));
        let ghost v0 = self@;
        let r = ColMut { data: self.data, layout };
        proof {
            assert forall|i: int| 0 <= i < layout.nrows implies r@[i] == v0[i][j as int] by {
                assert(layout.has(i, 0));
            }
            assert(r@ =~= algebra::column(v0, j as int));
        }
        r
    }
}

} // verus!
