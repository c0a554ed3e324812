//! Mutable strided column view.
//!
//! As for matrix views, a function that takes a `ColMut` by value states its
//! effect on the buffer the view borrows: with `d` the content of the buffer
//! when the borrow ends, `c.layout.frame(c.data@, d)` says that nothing
//! outside the view changed and `c.layout.col_model(d)` is the logical column
//! the view ends with.
use crate::algebra;
use crate::col::colown::Col;
use crate::col::colref::ColRef;
use crate::diag::diagmut::DiagMut;
use crate::diag::diagref::DiagRef;
use crate::layout::MatLayout;
use crate::mat::matmut::MatMut;
use crate::mat::matref::MatRef;
use crate::row::rowmut::RowMut;
use crate::linalg::kron;
use crate::linalg::reductions;
use crate::mat::matown::Mat;
use crate::row::rowref::RowRef;
use crate::scalar::{ComplexField, Conj};
use crate::utils::bound::Partition;
use vstd::prelude::*;

verus! {

/// Mutable view over a column stored in a flat buffer.
pub struct ColMut<'a, T> {
    /// The buffer the view reads from and writes to.
    pub data: &'a mut [T],
    /// Where the entries of the view lie in the buffer; it has one column.
    pub layout: MatLayout,
}

impl<'a, T: Copy> ColMut<'a, T> {
    /// The view addresses distinct positions inside its buffer.
    pub open spec fn wf(&self) -> bool {
        self.layout.col_wf(self.data@.len())
    }

    /// The logical column.
    pub open spec fn view(&self) -> Seq<T> {
        self.layout.col_model(self.data@)
    }

    pub open spec fn spec_nrows(&self) -> usize {
        self.layout.nrows
    }

    /// `self` is the state of the view `before` after some writes through it:
    /// same layout, and a buffer that differs only where the view has entries.
    pub open spec fn evolved_from(&self, before: &Self) -> bool {
        &&& self.layout == before.layout
        &&& before.layout.frame(before.data@, self.data@)
    }

    /// Views a slice as a column with contiguous entries.
    pub fn from_slice_mut(slice: &'a mut [T]) -> (r: Self)
        ensures
            r.wf(),
            r@ == old(slice)@,
            r.data@ == old(slice)@,
            final(r.data)@ == final(slice)@,
            r.nrows() == old(slice)@.len(),
            r.layout == MatLayout::column_major_spec(old(slice)@.len() as usize, 1),
    {
        let len = slice.len();
        proof {
            assert(len * 1 == len) by (nonlinear_arith);
        }
        let layout = MatLayout::column_major(len, 1);
        let r = ColMut { data: slice, layout };
        proof {
            assert forall|i: int| 0 <= i < len implies r@[i] == r.data@[i] by {
                assert(layout.has(i, 0));
                assert(layout.idx(i, 0) == i + 0 * len);
            }
            assert(r@ =~= r.data@);
        }
        r
    }

    /// Number of rows.
    #[verifier::when_used_as_spec(spec_nrows)]
    pub fn nrows(&self) -> (r: usize)
        ensures
            r == self.layout.nrows,
    {
        self.layout.nrows
    }

    /// Number of columns: always one.
    pub fn ncols(&self) -> (r: usize)
        ensures
            r == 1,
    {
        1
    }

    /// Number of rows and of columns.
    pub fn shape(&self) -> (r: (usize, usize))
        ensures
            r == (self.layout.nrows, 1usize),
    {
        (self.layout.nrows, 1)
    }

    /// Distance between consecutive entries, in elements.
    pub fn row_stride(&self) -> (r: isize)
        ensures
            r == self.layout.row_stride,
    {
        self.layout.row_stride
    }

    /// Reads the entry in row `row`.
    pub fn read(&self, row: usize) -> (r: T)
        requires
            self.wf(),
            row < self.nrows(),
        ensures
            r == self@[row as int],
    {
        proof {
            self.layout.lemma_addressable(self.data@.len(), row as int, 0);
        }
        let k = self.layout.offset(row, 0);
        self.data[k]
    }

    /// Writes `value` to the entry in row `row`.
    pub fn write(&mut self, row: usize, value: T)
        requires
            old(self).wf(),
            row < old(self).nrows(),
        ensures
            final(self).wf(),
            final(self).evolved_from(old(self)),
            final(self)@ == old(self)@.update(row as int, value),
            final(final(self).data)@ == final(old(self).data)@,
    {
        proof {
            self.layout.lemma_addressable(self.data@.len(), row as int, 0);
        }
        let k = self.layout.offset(row, 0);
        self.data[k] = value;
        proof {
            let lay = self.layout;
            assert(lay.has(row as int, 0));
            assert forall|a: int| 0 <= a < lay.nrows implies self@[a] == old(self)@.update(
                row as int,
                value,
            )[a] by {
                assert(lay.has(a, 0));
                if lay.idx(a, 0) == lay.idx(row as int, 0) {
                    assert(a == row);
                }
            }
            assert(self@ =~= old(self)@.update(row as int, value));
        }
    }

    /// An immutable view of the same entries.
    pub fn rb(&self) -> (r: ColRef<'_, T>)
        ensures
            r.layout == self.layout,
            r.data@ == old(self.data)@,
            r@ == self@,
            r.wf() == self.wf(),
    {
        ColRef { data: &*self.data, layout: self.layout }
    }

    /// An immutable view of the same entries.
    pub fn as_ref(&self) -> (r: ColRef<'_, T>)
        ensures
            r.layout == self.layout,
            r.data@ == old(self.data)@,
            r@ == self@,
            r.wf() == self.wf(),
    {
        self.rb()
    }

    /// A mutable view of the same entries that lives shorter than `self`.
    pub fn rb_mut(&mut self) -> (r: ColMut<'_, T>)
        ensures
            r.layout == old(self).layout,
            r.data@ == old(self).data@,
            final(self).layout == old(self).layout,
            final(self).data@ == final(r.data)@,
            final(final(self).data)@ == final(old(self).data)@,
    {
        ColMut { data: &mut *self.data, layout: self.layout }
    }

    /// A mutable view of the same entries that lives shorter than `self`.
    pub fn as_mut(&mut self) -> (r: ColMut<'_, T>)
        ensures
            r.layout == old(self).layout,
            r.data@ == old(self).data@,
            final(self).layout == old(self).layout,
            final(self).data@ == final(r.data)@,
            final(final(self).data)@ == final(old(self).data)@,
    {
        ColMut { data: &mut *self.data, layout: self.layout }
    }

    /// Gives up the right to write.
    pub fn into_const(self) -> (r: ColRef<'a, T>)
        ensures
            r.layout == self.layout,
            r.data@ == old(self.data)@,
            final(self.data)@ == old(self.data)@,
    {
        ColRef { data: &*self.data, layout: self.layout }
    }

    /// A reference to the entry in row `row`.
    pub fn get(self, row: usize) -> (r: &'a T)
        requires
            self.wf(),
            row < self.nrows(),
        ensures
            *r == self@[row as int],
            final(self.data)@ == old(self.data)@,
    {
        self.into_const().get(row)
    }

    /// A mutable reference to the entry in row `row`. What is written
    /// through it is what the buffer holds at that entry when the borrow
    /// ends; nothing else changes.
    pub fn get_mut(self, row: usize) -> (r: &'a mut T)
        requires
            self.wf(),
            row < self.nrows(),
        ensures
            *r == self@[row as int],
            final(self.data)@ == old(self.data)@.update(
                self.layout.idx(row as int, 0),
                *final(r),
            ),
    {
        proof {
            self.layout.lemma_addressable(self.data@.len(), row as int, 0);
        }
        let k = self.layout.offset(row, 0);
        &mut self.data[k]
    }

    /// The rows `row_start .. row_start + nrows`, read only.
    pub fn subrows(self, row_start: usize, nrows: usize) -> (r: ColRef<'a, T>)
        requires
            self.wf(),
            row_start + nrows <= self.nrows(),
        ensures
            r.wf(),
            r.nrows() == nrows,
            r.data@ == old(self.data)@,
            self.layout.is_window(r.layout, row_start as int, 0),
            r@ == self@.subrange(row_start as int, row_start + nrows),
            final(self.data)@ == old(self.data)@,
    {
        self.into_const().subrows(row_start, nrows)
    }

    /// The rows above `row` and the rows from `row` on, read only.
    pub fn split_at_row(self, row: usize) -> (r: (ColRef<'a, T>, ColRef<'a, T>))
        requires
            self.wf(),
            row <= self.nrows(),
        ensures
            r.0.wf(),
            r.1.wf(),
            r.0.nrows() == row,
            r.1.nrows() == self.nrows() - row,
            r.0.data@ == old(self.data)@,
            r.1.data@ == old(self.data)@,
            self.layout.is_window(r.0.layout, 0, 0),
            self.layout.is_window(r.1.layout, row as int, 0),
            r.0@ == self@.subrange(0, row as int),
            r.1@ == self@.subrange(row as int, self.nrows() as int),
            final(self.data)@ == old(self.data)@,
    {
        self.into_const().split_at_row(row)
    }

    /// The head and the tail of the column, as `row` splits it, read only.
    pub fn split_rows_with(self, row: Partition) -> (r: (ColRef<'a, T>, ColRef<'a, T>))
        requires
            self.wf(),
            row.head + row.tail == self.nrows(),
        ensures
            r.0.wf(),
            r.1.wf(),
            r.0.nrows() == row.head,
            r.1.nrows() == row.tail,
            r.0.data@ == old(self.data)@,
            r.1.data@ == old(self.data)@,
            self.layout.is_window(r.0.layout, 0, 0),
            self.layout.is_window(r.1.layout, row.head as int, 0),
            r.0@ == self@.subrange(0, row.head as int),
            r.1@ == self@.subrange(row.head as int, self.nrows() as int),
            final(self.data)@ == old(self.data)@,
    {
        self.split_at_row(row.midpoint())
    }

    /// The view with the rows in reverse order, read only.
    pub fn reverse_rows(self) -> (r: ColRef<'a, T>)
        requires
            self.wf(),
        ensures
            r.wf(),
            r.nrows() == self.nrows(),
            r.data@ == old(self.data)@,
            self.layout.is_row_reversal(r.layout),
            r@ == algebra::reversed(self@),
            final(self.data)@ == old(self.data)@,
    {
        self.into_const().reverse_rows()
    }

    /// The same entries, read only, under a number of rows that the caller
    /// states.
    pub fn as_row_shape(self, nrows: usize) -> (r: ColRef<'a, T>)
        requires
            nrows == self.nrows(),
        ensures
            r.layout == self.layout,
            r.data@ == old(self.data)@,
            final(self.data)@ == old(self.data)@,
    {
        self.into_const()
    }

    /// The same entries, read only, with the number of rows as a plain
    /// number.
    pub fn as_dyn_rows(self) -> (r: ColRef<'a, T>)
        ensures
            r.layout == self.layout,
            r.data@ == old(self.data)@,
            final(self.data)@ == old(self.data)@,
    {
        self.into_const()
    }

    /// The same entries, read only, with the stride as a plain number.
    pub fn as_dyn_stride(self) -> (r: ColRef<'a, T>)
        ensures
            r.layout == self.layout,
            r.data@ == old(self.data)@,
            final(self.data)@ == old(self.data)@,
    {
        self.into_const()
    }

    /// The read-only view, if its entries are contiguous in memory.
    pub fn try_as_col_major(self) -> (r: Option<ColRef<'a, T>>)
        ensures
            r.is_some() == (self.layout.row_stride == 1),
            r.is_some() ==> r.unwrap().layout == self.layout && r.unwrap().data@ == old(
                self.data,
            )@,
            final(self.data)@ == old(self.data)@,
    {
        self.into_const().try_as_col_major()
    }

    /// The entries of the column, in order.
    pub fn iter(self) -> (r: Vec<T>)
        requires
            self.wf(),
        ensures
            r@ == self@,
            final(self.data)@ == old(self.data)@,
    {
        self.into_const().iter()
    }

    /// The column as a matrix of one column, read only.
    pub fn as_mat(self) -> (r: MatRef<'a, T>)
        requires
            self.wf(),
        ensures
            r.wf(),
            r.nrows() == self.nrows(),
            r.ncols() == 1,
            r.layout == self.layout,
            r.data@ == old(self.data)@,
            r@ == algebra::from_column(self@),
            final(self.data)@ == old(self.data)@,
    {
        self.into_const().as_mat()
    }

    /// The column as a row, read only.
    pub fn transpose(self) -> (r: RowRef<'a, T>)
        ensures
            r.trans.layout == self.layout,
            r.trans.data@ == old(self.data)@,
            final(self.data)@ == old(self.data)@,
    {
        self.into_const().transpose()
    }

    /// The column as the diagonal of a diagonal matrix, read only.
    pub fn as_diagonal(self) -> (r: DiagRef<'a, T>)
        ensures
            r.inner.layout == self.layout,
            r.inner.data@ == old(self.data)@,
            final(self.data)@ == old(self.data)@,
    {
        self.into_const().as_diagonal()
    }

    /// The rows `row_start .. row_start + nrows`.
    pub fn subrows_mut(self, row_start: usize, nrows: usize) -> (r: Self)
        requires
            self.wf(),
            row_start + nrows <= self.nrows(),
        ensures
            r.wf(),
            r.nrows() == nrows,
            r.data@ == old(self.data)@,
            final(r.data)@ == final(self.data)@,
            self.layout.is_window(r.layout, row_start as int, 0),
            r@ == self@.subrange(row_start as int, row_start + nrows),
    {
        let layout = self.layout.window(row_start, 0, nrows, 1, Ghost(self.data@.len()));
        proof {
            self.layout.lemma_col_window_model(layout, row_start as int, self.data@);
        }
        ColMut { data: self.data, layout }
    }

    /// The rows above `row` and the rows from `row` on, as two views that can
    /// be written independently: each borrows its own stretch of the buffer.
    /// When both borrows end, having changed nothing outside their views,
    /// the column holds what the two views hold, one after the other.
    pub fn split_at_row_mut(self, row: usize) -> (r: (ColMut<'a, T>, ColMut<'a, T>))
        requires
            self.wf(),
            row <= self.nrows(),
        ensures
            r.0.wf(),
            r.1.wf(),
            r.0.nrows() == row,
            r.1.nrows() == self.nrows() - row,
            r.0.layout.row_stride == self.layout.row_stride,
            r.1.layout.row_stride == self.layout.row_stride,
            r.0@ == self@.subrange(0, row as int),
            r.1@ == self@.subrange(row as int, self.nrows() as int),
            r.0.layout.frame(r.0.data@, final(r.0.data)@) && r.1.layout.frame(
                r.1.data@,
                final(r.1.data)@,
            ) ==> {
                &&& self.layout.frame(old(self.data)@, final(self.data)@)
                &&& self.layout.col_model(final(self.data)@) == r.0.layout.col_model(
                    final(r.0.data)@,
                ) + r.1.layout.col_model(final(r.1.data)@)
            },
    {
        let lay = self.layout;
        let n = lay.nrows;
        let s = lay.row_stride;
        let len = self.data.len();
        let ghost d0 = self.data@;
        let ghost v0 = self@;
        let rest: usize = n - row;
        proof {
            assert(0 * lay.col_stride == 0);
            assert forall|i: int| 0 <= i < n implies 0 <= #[trigger] lay.idx(i, 0) < len by {
                assert(lay.has(i, 0));
            }
        }
        if row == 0 || row == n || s > 0 {
            // the top lies in the first stretch of the buffer
            let cut: usize = if row == 0 {
                0
            } else if row == n {
                len
            } else {
                proof {
                    lay.lemma_addressable(len as nat, row as int, 0);
                }
                lay.offset(row, 0)
            };
            let top_lay = MatLayout {
                start: if row == 0 {
                    0
                } else {
                    lay.start
                },
                nrows: row,
                ncols: 1,
                row_stride: s,
                col_stride: lay.col_stride,
            };
            let bot_lay = if row == 0 {
                lay
            } else {
                MatLayout { start: 0, nrows: rest, ncols: 1, row_stride: s, col_stride: lay.col_stride }
            };
            proof {
                assert forall|i: int| 0 <= i < row implies #[trigger] top_lay.idx(i, 0) + 0
                    == lay.idx(0 + i, 0) by {}
                assert forall|i: int| 0 <= i < row implies 0 <= #[trigger] lay.idx(0 + i, 0) < 0
                    + cut by {
                    assert(lay.has(i, 0));
                    if row < n {
                        crate::layout::lemma_stride_distributes(row as int, i, s as int);
                        assert((row - i) * s > 0) by (nonlinear_arith)
                            requires
                                row - i > 0,
                                s > 0,
                        ;
                    }
                }
                assert forall|i: int| 0 <= i < rest implies #[trigger] bot_lay.idx(i, 0) + cut
                    == lay.idx(row + i, 0) by {
                    if row > 0 {
                        crate::layout::lemma_stride_distributes(row as int, i, s as int);
                    }
                }
                assert forall|i: int| 0 <= i < rest implies cut <= #[trigger] lay.idx(row + i, 0)
                    < cut + (len - cut) by {
                    assert(lay.has(row + i, 0));
                    if row > 0 && row < n {
                        crate::layout::lemma_stride_distributes(row as int, i, s as int);
                        assert(i * s >= 0) by (nonlinear_arith)
                            requires
                                i >= 0,
                                s > 0,
                        ;
                    }
                }
                lay.lemma_col_part_wf(top_lay, 0, 0, len as nat, cut as nat);
                lay.lemma_col_part_wf(bot_lay, row as int, cut as int, len as nat, (len - cut) as nat);
            }
            let (first, second) = self.data.split_at_mut(cut);
            let ghost a0 = first@;
            let ghost b0 = second@;
            let top = ColMut { data: first, layout: top_lay };
            let bot = ColMut { data: second, layout: bot_lay };
            proof {
                assert(d0 =~= a0 + b0);
                assert(top_lay.frame(a0, a0));
                assert(bot_lay.frame(b0, b0));
                lay.lemma_col_split(top_lay, bot_lay, 0, row as int, a0, b0, a0, b0);
                assert(top@ =~= v0.subrange(0, row as int));
                assert(bot@ =~= v0.subrange(row as int, n as int));
                assert forall|fa: Seq<T>, fb: Seq<T>| #[trigger]
                    top_lay.frame(a0, fa) && #[trigger] bot_lay.frame(b0, fb) implies lay.frame(
                    d0,
                    fa + fb,
                ) && lay.col_model(fa + fb) == top_lay.col_model(fa) + bot_lay.col_model(fb) by {
                    lay.lemma_col_split(top_lay, bot_lay, 0, row as int, a0, b0, fa, fb);
                    assert(lay.col_model(fa + fb) =~= top_lay.col_model(fa) + bot_lay.col_model(
                        fb,
                    ));
                }
            }
            (top, bot)
        } else {
            // a column that runs backwards: the top lies in the second
            // stretch of the buffer
            proof {
                assert(lay.has(0, 0) && lay.has(1, 0));
                assert(s != 0) by {
                    if s == 0 {
                        assert(lay.idx(0, 0) == lay.idx(1, 0)) by (nonlinear_arith)
                            requires
                                s == 0,
                                lay.idx(0, 0) == lay.start + 0 * s + 0 * lay.col_stride,
                                lay.idx(1, 0) == lay.start + 1 * s + 0 * lay.col_stride,
                        ;
                    }
                }
                lay.lemma_addressable(len as nat, row - 1, 0);
                lay.lemma_addressable(len as nat, row as int, 0);
                assert(lay.idx(0, 0) == lay.start) by (nonlinear_arith)
                    requires
                        lay.idx(0, 0) == lay.start + 0 * s + 0 * lay.col_stride,
                ;
                crate::layout::lemma_stride_distributes(row - 1, 0, s as int);
                assert((row - 1) * s <= 0) by (nonlinear_arith)
                    requires
                        row - 1 >= 0,
                        s < 0,
                ;
            }
            let cut: usize = lay.offset(row - 1, 0);
            let bot_start: usize = lay.offset(row, 0);
            let top_lay = MatLayout {
                start: lay.start - cut,
                nrows: row,
                ncols: 1,
                row_stride: s,
                col_stride: lay.col_stride,
            };
            let bot_lay = MatLayout {
                start: bot_start,
                nrows: rest,
                ncols: 1,
                row_stride: s,
                col_stride: lay.col_stride,
            };
            proof {
                assert forall|i: int| 0 <= i < row implies #[trigger] top_lay.idx(i, 0) + cut
                    == lay.idx(0 + i, 0) by {}
                assert forall|i: int| 0 <= i < row implies cut <= #[trigger] lay.idx(0 + i, 0)
                    < cut + (len - cut) by {
                    assert(lay.has(i, 0));
                    crate::layout::lemma_stride_distributes(row - 1, i, s as int);
                    assert((row - 1 - i) * s <= 0) by (nonlinear_arith)
                        requires
                            row - 1 - i >= 0,
                            s < 0,
                    ;
                }
                assert forall|i: int| 0 <= i < rest implies #[trigger] bot_lay.idx(i, 0) + 0
                    == lay.idx(row + i, 0) by {
                    crate::layout::lemma_stride_distributes(row as int, i, s as int);
                }
                assert forall|i: int| 0 <= i < rest implies 0 <= #[trigger] lay.idx(row + i, 0)
                    < 0 + cut by {
                    assert(lay.has(row + i, 0));
                    crate::layout::lemma_stride_distributes(row as int, i, s as int);
                    crate::layout::lemma_stride_distributes(row - 1, 1, s as int);
                    assert(i * s <= 0) by (nonlinear_arith)
                        requires
                            i >= 0,
                            s < 0,
                    ;
                }
                lay.lemma_col_part_wf(bot_lay, row as int, 0, len as nat, cut as nat);
                lay.lemma_col_part_wf(top_lay, 0, cut as int, len as nat, (len - cut) as nat);
            }
            let (first, second) = self.data.split_at_mut(cut);
            let ghost a0 = first@;
            let ghost b0 = second@;
            let top = ColMut { data: second, layout: top_lay };
            let bot = ColMut { data: first, layout: bot_lay };
            proof {
                assert(d0 =~= a0 + b0);
                assert(bot_lay.frame(a0, a0));
                assert(top_lay.frame(b0, b0));
                lay.lemma_col_split(bot_lay, top_lay, row as int, 0, a0, b0, a0, b0);
                assert(top@ =~= v0.subrange(0, row as int));
                assert(bot@ =~= v0.subrange(row as int, n as int));
                assert forall|fa: Seq<T>, fb: Seq<T>| #[trigger]
                    bot_lay.frame(a0, fa) && #[trigger] top_lay.frame(b0, fb) implies lay.frame(
                    d0,
                    fa + fb,
                ) && lay.col_model(fa + fb) == top_lay.col_model(fb) + bot_lay.col_model(fa) by {
                    lay.lemma_col_split(bot_lay, top_lay, row as int, 0, a0, b0, fa, fb);
                    assert(lay.col_model(fa + fb) =~= top_lay.col_model(fb) + bot_lay.col_model(
                        fa,
                    ));
                }
            }
            (top, bot)
        }
    }

    /// The head and the tail of the column, as `row` splits it, as two views
    /// that can be written independently.
    pub fn split_rows_with_mut(self, row: Partition) -> (r: (ColMut<'a, T>, ColMut<'a, T>))
        requires
            self.wf(),
            row.head + row.tail == self.nrows(),
        ensures
            r.0.wf(),
            r.1.wf(),
            r.0.nrows() == row.head,
            r.1.nrows() == row.tail,
            r.0.layout.row_stride == self.layout.row_stride,
            r.1.layout.row_stride == self.layout.row_stride,
            r.0@ == self@.subrange(0, row.head as int),
            r.1@ == self@.subrange(row.head as int, self.nrows() as int),
            r.0.layout.frame(r.0.data@, final(r.0.data)@) && r.1.layout.frame(
                r.1.data@,
                final(r.1.data)@,
            ) ==> {
                &&& self.layout.frame(old(self.data)@, final(self.data)@)
                &&& self.layout.col_model(final(self.data)@) == r.0.layout.col_model(
                    final(r.0.data)@,
                ) + r.1.layout.col_model(final(r.1.data)@)
            },
    {
        self.split_at_row_mut(row.midpoint())
    }

    /// The rows above `row` and the rows from `row` on, as two views that can
    /// be written independently.
    pub fn split_at_mut(self, row: usize) -> (r: (ColMut<'a, T>, ColMut<'a, T>))
        requires
            self.wf(),
            row <= self.nrows(),
        ensures
            r.0.wf(),
            r.1.wf(),
            r.0.nrows() == row,
            r.1.nrows() == self.nrows() - row,
            r.0.layout.row_stride == self.layout.row_stride,
            r.1.layout.row_stride == self.layout.row_stride,
            r.0@ == self@.subrange(0, row as int),
            r.1@ == self@.subrange(row as int, self.nrows() as int),
            r.0.layout.frame(r.0.data@, final(r.0.data)@) && r.1.layout.frame(
                r.1.data@,
                final(r.1.data)@,
            ) ==> {
                &&& self.layout.frame(old(self.data)@, final(self.data)@)
                &&& self.layout.col_model(final(self.data)@) == r.0.layout.col_model(
                    final(r.0.data)@,
                ) + r.1.layout.col_model(final(r.1.data)@)
            },
    {
        self.split_at_row_mut(row)
    }

    /// The entries of a column that is contiguous in memory, as a slice.
    pub fn try_get_contiguous_col_mut(self) -> (r: &'a mut [T])
        requires
            self.wf(),
            self.layout.row_stride == 1,
        ensures
            r@ == self@,
            final(r)@.len() == r@.len() ==> {
                &&& self.layout.frame(old(self.data)@, final(self.data)@)
                &&& self.layout.col_model(final(self.data)@) == final(r)@
            },
    {
        self.as_slice_mut()
    }

    /// The entries of a column that is contiguous in memory, as a slice.
    pub fn as_slice_mut(self) -> (r: &'a mut [T])
        requires
            self.wf(),
            self.layout.row_stride == 1,
        ensures
            r@ == self@,
            final(r)@.len() == r@.len() ==> {
                &&& self.layout.frame(old(self.data)@, final(self.data)@)
                &&& self.layout.col_model(final(self.data)@) == final(r)@
            },
    {
        let lay = self.layout;
        let n = lay.nrows;
        let len = self.data.len();
        let ghost d0 = self.data@;
        let start: usize = if n == 0 {
            0
        } else {
            proof {
                lay.lemma_addressable(len as nat, 0, 0);
            }
            lay.offset(0, 0)
        };
        proof {
            assert(0 * lay.col_stride == 0);
            assert forall|i: int| 0 <= i < n implies #[trigger] lay.idx(i, 0) == start + i by {
                assert(lay.has(i, 0) && lay.has(0, 0));
                assert(lay.idx(i, 0) == lay.start + i * 1 + 0 * lay.col_stride);
                assert(lay.idx(0, 0) == lay.start + 0 * 1 + 0 * lay.col_stride);
            }
            if n > 0 {
                assert(lay.has(n - 1, 0));
                assert(lay.idx(n - 1, 0) < len);
            }
        }
        let (before, rest) = self.data.split_at_mut(start);
        let (middle, after) = rest.split_at_mut(n);
        let ghost a0 = before@;
        let ghost m0 = middle@;
        let ghost c0 = after@;
        proof {
            assert(d0 =~= a0 + (m0 + c0));
            assert(m0 =~= lay.col_model(d0));
            assert forall|m1: Seq<T>| m1.len() == n implies lay.frame(d0, a0 + (m1 + c0))
                && #[trigger] lay.col_model(a0 + (m1 + c0)) == m1 by {
                let d1 = a0 + (m1 + c0);
                assert forall|k: int| 0 <= k < d0.len() && !lay.covers(k) implies d1[k]
                    == d0[k] by {
                    if start <= k < start + n {
                        assert(lay.has(k - start, 0));
                        assert(lay.idx(k - start, 0) == k);
                    }
                }
                assert(lay.col_model(d1) =~= m1);
            }
        }
        middle
    }

    /// The view with the rows in reverse order: no element is moved.
    pub fn reverse_rows_mut(self) -> (r: Self)
        requires
            self.wf(),
        ensures
            r.wf(),
            r.nrows() == self.nrows(),
            r.data@ == old(self.data)@,
            final(r.data)@ == final(self.data)@,
            self.layout.is_row_reversal(r.layout),
            r@ == algebra::reversed(self@),
    {
        let layout = self.layout.reverse_rows(Ghost(self.data@.len()));
        proof {
            self.layout.lemma_col_reversal_model(layout, self.data@);
        }
        ColMut { data: self.data, layout }
    }

    /// The same view, under a number of rows that the caller states.
    pub fn as_row_shape_mut(self, nrows: usize) -> (r: Self)
        requires
            nrows == self.nrows(),
        ensures
            r.layout == self.layout,
            r.data@ == old(self.data)@,
            final(r.data)@ == final(self.data)@,
    {
        self
    }

    /// The same view, with the number of rows as a plain number.
    pub fn as_dyn_rows_mut(self) -> (r: Self)
        ensures
            r.layout == self.layout,
            r.data@ == old(self.data)@,
            final(r.data)@ == final(self.data)@,
    {
        self
    }

    /// The same view, with the stride as a plain number.
    pub fn as_dyn_stride_mut(self) -> (r: Self)
        ensures
            r.layout == self.layout,
            r.data@ == old(self.data)@,
            final(r.data)@ == final(self.data)@,
    {
        self
    }

    /// The view, if its entries are contiguous in memory. Otherwise the view
    /// is given up and nothing is changed.
    pub fn try_as_col_major_mut(self) -> (r: Option<Self>)
        ensures
            r.is_some() == (self.layout.row_stride == 1),
            r.is_some() ==> r.unwrap().layout == self.layout && r.unwrap().data@ == old(
                self.data,
            )@ && final(r.unwrap().data)@ == final(self.data)@,
            r.is_none() ==> final(self.data)@ == old(self.data)@,
    {
        if self.layout.row_stride == 1 {
            Some(self)
        } else {
            None
        }
    }

    /// The column as a matrix of one column.
    pub fn as_mat_mut(self) -> (r: MatMut<'a, T>)
        requires
            self.wf(),
        ensures
            r.wf(),
            r.layout == self.layout,
            r.data@ == old(self.data)@,
            final(r.data)@ == final(self.data)@,
            r@ == algebra::from_column(self@),
    {
        proof {
            self.layout.lemma_col_model(self.data@);
        }
        MatMut { data: self.data, layout: self.layout }
    }

    /// The column as a matrix of one column.
    pub fn as_2d_mut(self) -> (r: MatMut<'a, T>)
        requires
            self.wf(),
        ensures
            r.wf(),
            r.layout == self.layout,
            r.data@ == old(self.data)@,
            final(r.data)@ == final(self.data)@,
            r@ == algebra::from_column(self@),
    {
        self.as_mat_mut()
    }

    /// The column as a row: the transposed view.
    pub fn transpose_mut(self) -> (r: RowMut<'a, T>)
        ensures
            r.trans.layout == self.layout,
            r.trans.data@ == old(self.data)@,
            final(r.trans.data)@ == final(self.data)@,
    {
        RowMut { trans: self }
    }

    /// The column as the diagonal of a diagonal matrix.
    pub fn as_diagonal_mut(self) -> (r: DiagMut<'a, T>)
        ensures
            r.inner.layout == self.layout,
            r.inner.data@ == old(self.data)@,
            final(r.inner.data)@ == final(self.data)@,
    {
        DiagMut { inner: self }
    }

    /// The column as the diagonal of a diagonal matrix.
    pub fn column_vector_as_diagonal_mut(self) -> (r: DiagMut<'a, T>)
        ensures
            r.inner.layout == self.layout,
            r.inner.data@ == old(self.data)@,
            final(r.inner.data)@ == final(self.data)@,
    {
        DiagMut { inner: self }
    }

    /// Copies the entries of `other` into `self`.
    pub fn copy_from(&mut self, other: ColRef<'_, T>)
        requires
            old(self).wf(),
            other.wf(),
            old(self).nrows() == other.nrows(),
        ensures
            final(self).wf(),
            final(self).evolved_from(old(self)),
            final(self)@ == other@,
            final(final(self).data)@ == final(old(self).data)@,
    {
        let n = self.nrows();
        let ghost lay = self.layout;
        let ghost data0 = self.data@;
        let ghost fin = final(self.data)@;
        let mut i: usize = 0;
        proof {
            assert(lay.frame(data0, data0));
        }
        while i < n
            invariant
                i <= n,
                n == lay.nrows,
                n == other.nrows(),
                other.wf(),
                self.wf(),
                self.layout == lay,
                lay.frame(data0, self.data@),
                final(self.data)@ == fin,
                forall|a: int| 0 <= a < i ==> #[trigger] self@[a] == other@[a],
            decreases n - i,
        {
            self.write(i, other.read(i));
            i += 1;
        }
        proof {
            assert(self@ =~= other@);
        }
    }

    /// Fills the column with copies of `value`.
    pub fn fill(&mut self, value: T)
        requires
            old(self).wf(),
        ensures
            final(self).wf(),
            final(self).evolved_from(old(self)),
            final(self)@ == Seq::new(old(self).nrows() as nat, |i: int| value),
            final(final(self).data)@ == final(old(self).data)@,
    {
        let n = self.nrows();
        let ghost lay = self.layout;
        let ghost data0 = self.data@;
        let ghost fin = final(self.data)@;
        let mut i: usize = 0;
        proof {
            assert(lay.frame(data0, data0));
        }
        while i < n
            invariant
                i <= n,
                n == lay.nrows,
                self.wf(),
                self.layout == lay,
                lay.frame(data0, self.data@),
                final(self.data)@ == fin,
                forall|a: int| 0 <= a < i ==> #[trigger] self@[a] == value,
            decreases n - i,
        {
            self.write(i, value);
            i += 1;
        }
        proof {
            assert(self@ =~= Seq::new(n as nat, |i: int| value));
        }
    }
}

impl<'a, T: Copy> core::ops::Index<usize> for ColMut<'a, T> {
    type Output = T;

    fn index(&self, row: usize) -> (r: &T)
        ensures
            *r == self@[row as int],
    {
        proof {
            self.layout.lemma_addressable(self.data@.len(), row as int, 0);
        }
        let k = self.layout.offset(row, 0);
        &self.data[k]
    }
}

impl<'a, T: Copy> vstd::std_specs::core::IndexSpecImpl<usize> for ColMut<'a, T> {
    open spec fn index_req(&self, index: &usize) -> bool {
        self.wf() && *index < self.nrows()
    }
}

impl<'a, T: ComplexField> ColMut<'a, T> {
    /// The conjugate of the column, read only, as the kernels take it: the
    /// view of the stored entries with the flag that has them read
    /// conjugated. No element is moved or changed.
    pub fn conjugate(self) -> (r: (ColRef<'a, T>, Conj))
        ensures
            r.0.layout == self.layout,
            r.0.data@ == old(self.data)@,
            r.1 == Conj::Yes,
            final(self.data)@ == old(self.data)@,
    {
        (self.into_const(), Conj::Yes)
    }

    /// The view of the entries as they are stored, read only.
    pub fn canonical(self) -> (r: ColRef<'a, T>)
        ensures
            r.layout == self.layout,
            r.data@ == old(self.data)@,
            final(self.data)@ == old(self.data)@,
    {
        self.into_const()
    }

    /// The conjugate transpose of the column, read only, as the kernels
    /// take it: the row view of the stored entries with the flag that has
    /// them read conjugated.
    pub fn adjoint(self) -> (r: (RowRef<'a, T>, Conj))
        ensures
            r.0.trans.layout == self.layout,
            r.0.trans.data@ == old(self.data)@,
            r.1 == Conj::Yes,
            final(self.data)@ == old(self.data)@,
    {
        (self.into_const().transpose(), Conj::Yes)
    }

    /// The conjugate of the column, as the kernels take it: the mutable
    /// view of the stored entries with the flag that has them read
    /// conjugated. What is written through the view is stored as written.
    pub fn conjugate_mut(self) -> (r: (ColMut<'a, T>, Conj))
        ensures
            r.0.layout == self.layout,
            r.0.data@ == old(self.data)@,
            final(r.0.data)@ == final(self.data)@,
            r.1 == Conj::Yes,
    {
        (self, Conj::Yes)
    }

    /// The mutable view of the entries as they are stored.
    pub fn canonical_mut(self) -> (r: ColMut<'a, T>)
        ensures
            r.layout == self.layout,
            r.data@ == old(self.data)@,
            final(r.data)@ == final(self.data)@,
    {
        self
    }

    /// The mutable view of the entries as they are stored, with the flag
    /// that says whether they are to be read conjugated: a view is never
    /// stored conjugated, so the flag is `Conj::No`.
    pub fn canonicalize_mut(self) -> (r: (ColMut<'a, T>, Conj))
        ensures
            r.0.layout == self.layout,
            r.0.data@ == old(self.data)@,
            final(r.0.data)@ == final(self.data)@,
            r.1 == Conj::No,
    {
        (self, Conj::No)
    }

    /// The conjugate transpose of the column, as the kernels take it: the
    /// mutable row view of the stored entries with the flag that has them
    /// read conjugated.
    pub fn adjoint_mut(self) -> (r: (RowMut<'a, T>, Conj))
        ensures
            r.0.trans.layout == self.layout,
            r.0.trans.data@ == old(self.data)@,
            final(r.0.trans.data)@ == final(self.data)@,
            r.1 == Conj::Yes,
    {
        (RowMut { trans: self }, Conj::Yes)
    }

    /// Fills the column with zeros.
    pub fn fill_zero(&mut self)
        requires
            old(self).wf(),
        ensures
            final(self).wf(),
            final(self).evolved_from(old(self)),
            final(self)@ == Seq::new(old(self).nrows() as nat, |i: int| T::zero_spec()),
            final(final(self).data)@ == final(old(self).data)@,
    {
        self.fill(T::zero_impl());
    }

    /// Returns an owning column of the data.
    pub fn to_owned(&self) -> (r: Col<T>)
        requires
            self.wf(),
        ensures
            r@ == self@,
    {
        Col::from_vec(self.rb().iter())
    }

    /// Returns `true` if any of the elements is not a number.
    pub fn has_nan(&self) -> (r: bool)
        requires
            self.wf(),
        ensures
            r == reductions::has_nan_spec(self@),
    {
        reductions::has_nan(self.rb())
    }

    /// Returns `true` if all of the elements are finite.
    pub fn is_all_finite(&self) -> (r: bool)
        requires
            self.wf(),
        ensures
            r == reductions::is_all_finite_spec(self@),
    {
        reductions::is_all_finite(self.rb())
    }

    /// Returns the maximum norm of `self`.
    pub fn norm_max(&self) -> (r: T::Real)
        requires
            self.wf(),
        ensures
            r == reductions::norm_max_spec(self@, self@.len() as int),
    {
        reductions::norm_max(self.rb())
    }

    /// Returns the Euclidean norm of `self`.
    pub fn norm_l2(&self) -> (r: T::Real)
        requires
            self.wf(),
        ensures
            r == reductions::norm_l2_spec(self@),
    {
        reductions::norm_l2(self.rb())
    }

    /// Returns the sum of `self`.
    pub fn sum(&self) -> (r: T)
        requires
            self.wf(),
        ensures
            r == reductions::sum_spec(self@, self@.len() as int),
    {
        reductions::sum(self.rb())
    }

    /// Kronecker product of `self` and `rhs`, in a new matrix.
    pub fn kron(&self, rhs: MatRef<'_, T>) -> (r: Mat<T>)
        requires
            self.wf(),
            rhs.wf(),
            self.nrows() * rhs.nrows() <= usize::MAX,
            (self.nrows() * rhs.nrows()) * rhs.ncols() <= usize::MAX,
        ensures
            r.wf(),
            r.nrows() == self.nrows() * rhs.nrows(),
            r.ncols() == rhs.ncols(),
            r@ == kron::kron_spec(
                algebra::from_column(self@),
                1,
                rhs@,
                rhs.ncols() as nat,
            ),
    {
        proof {
            assert(1 * rhs.ncols() == rhs.ncols()) by (nonlinear_arith);
        }
        kron::kron(self.rb().as_mat(), rhs)
    }
}

} // verus!
