//! Strided addressing shared by the matrix and column views.
//!
//! A layout places the logical entry `(i, j)` of a view at position
//! `start + i * row_stride + j * col_stride` of a flat buffer. Strides may be
//! negative. A layout is well formed over a buffer of a given length when
//! every entry lands inside the buffer and no two entries land on the same
//! position: that is the non-aliasing discipline that lets a mutable view be
//! written entry by entry without disturbing the others.
use vstd::prelude::*;

verus! {

/// Addressing of a matrix view.
#[derive(Clone, Copy, Debug)]
pub struct MatLayout {
    /// Position of entry `(0, 0)`.
    pub start: usize,
    /// Number of rows.
    pub nrows: usize,
    /// Number of columns.
    pub ncols: usize,
    /// Distance, in elements, between consecutive rows.
    pub row_stride: isize,
    /// Distance, in elements, between consecutive columns.
    pub col_stride: isize,
}

/// `(a + b) * s == a * s + b * s`, the one nonlinear fact addressing needs.
pub proof fn lemma_stride_distributes(a: int, b: int, s: int)
    ensures
        (a + b) * s == a * s + b * s,
        (a - b) * s == a * s - b * s,
        a * (-s) == -(a * s),
{
    assert((a + b) * s == a * s + b * s) by (nonlinear_arith);
    assert((a - b) * s == a * s - b * s) by (nonlinear_arith);
    assert(a * (-s) == -(a * s)) by (nonlinear_arith);
}


impl MatLayout {
    /// Position in the buffer of the entry in row `i` and column `j`.
    pub open spec fn idx(self, i: int, j: int) -> int {
        self.start + i * self.row_stride + j * self.col_stride
    }

    /// Whether `(i, j)` names an entry of the view.
    pub open spec fn has(self, i: int, j: int) -> bool {
        0 <= i < self.nrows && 0 <= j < self.ncols
    }

    /// Every entry lies inside a buffer of `len` elements.
    pub open spec fn in_bounds(self, len: nat) -> bool {
        forall|i: int, j: int| self.has(i, j) ==> 0 <= #[trigger] self.idx(i, j) < len
    }

    /// Distinct entries lie at distinct positions.
    pub open spec fn injective(self) -> bool {
        forall|i: int, j: int, i2: int, j2: int|
            self.has(i, j) && self.has(i2, j2) && #[trigger] self.idx(i, j) == #[trigger] self.idx(
                i2,
                j2,
            ) ==> i == i2 && j == j2
    }

    /// Well-formedness over a buffer of `len` elements.
    pub open spec fn wf(self, len: nat) -> bool {
        &&& self.in_bounds(len)
        &&& self.injective()
        &&& len <= usize::MAX
        &&& self.row_stride > isize::MIN
        &&& self.col_stride > isize::MIN
    }

    /// The positions of `(i, 0)`, `(0, j)` and `(i, j)` are all valid buffer
    /// positions, so that the position of `(i, j)` can be computed without
    /// overflow.
    pub open spec fn addressable(self, i: int, j: int) -> bool {
        &&& 0 <= self.idx(i, 0) <= usize::MAX
        &&& 0 <= self.idx(0, j) <= usize::MAX
        &&& 0 <= self.idx(i, j) <= usize::MAX
    }

    /// Every entry of a well-formed layout is addressable.
    pub proof fn lemma_addressable(self, len: nat, i: int, j: int)
        requires
            self.wf(len),
            self.has(i, j),
        ensures
            self.addressable(i, j),
            0 <= self.idx(i, j) < len,
    {
        assert(self.has(i, 0) && self.has(0, j));
    }

    /// Whether position `k` of the buffer holds an entry of the view.
    pub open spec fn covers(self, k: int) -> bool {
        exists|i: int, j: int| self.has(i, j) && #[trigger] self.idx(i, j) == k
    }

    /// The logical matrix that the view shows of the buffer content `d`, as a
    /// sequence of rows.
    pub open spec fn model<T>(self, d: Seq<T>) -> Seq<Seq<T>> {
        Seq::new(
            self.nrows as nat,
            |i: int| Seq::new(self.ncols as nat, |j: int| d[self.idx(i, j)]),
        )
    }

    /// The logical column that a view of one column shows of the buffer
    /// content `d`.
    pub open spec fn col_model<T>(self, d: Seq<T>) -> Seq<T> {
        Seq::new(self.nrows as nat, |i: int| d[self.idx(i, 0)])
    }

    /// Whether the layout is that of a column: well formed, with one column.
    pub open spec fn col_wf(self, len: nat) -> bool {
        self.wf(len) && self.ncols == 1
    }

    /// The buffer content `d1` differs from `d0` at most where the view has
    /// entries.
    pub open spec fn frame<T>(self, d0: Seq<T>, d1: Seq<T>) -> bool {
        &&& d0.len() == d1.len()
        &&& forall|k: int| 0 <= k < d0.len() && !self.covers(k) ==> d1[k] == d0[k]
    }

    /// Whether `sub` addresses the window of `self` that starts at `(r0, c0)`.
    pub open spec fn is_window(self, sub: MatLayout, r0: int, c0: int) -> bool {
        &&& 0 <= r0
        &&& 0 <= c0
        &&& r0 + sub.nrows <= self.nrows
        &&& c0 + sub.ncols <= self.ncols
        &&& sub.row_stride == self.row_stride
        &&& sub.col_stride == self.col_stride
        &&& forall|i: int, j: int|
            sub.has(i, j) ==> #[trigger] sub.idx(i, j) == self.idx(r0 + i, c0 + j)
    }

    /// The layout of the transposed view.
    pub open spec fn transposed(self) -> MatLayout {
        MatLayout {
            start: self.start,
            nrows: self.ncols,
            ncols: self.nrows,
            row_stride: self.col_stride,
            col_stride: self.row_stride,
        }
    }

    /// Whether `t` addresses the transpose of `self`.
    pub open spec fn is_transpose(self, t: MatLayout) -> bool {
        t == self.transposed()
    }

    /// Whether `r` addresses the rows of `self` in reverse order.
    pub open spec fn is_row_reversal(self, r: MatLayout) -> bool {
        &&& r.nrows == self.nrows
        &&& r.ncols == self.ncols
        &&& r.row_stride == -self.row_stride
        &&& r.col_stride == self.col_stride
        &&& forall|i: int, j: int|
            r.has(i, j) ==> #[trigger] r.idx(i, j) == self.idx(self.nrows - 1 - i, j)
    }

    /// Computes the position of entry `(i, j)`.
    pub fn offset(&self, i: usize, j: usize) -> (k: usize)
        requires
            self.addressable(i as int, j as int),
        ensures
            k == self.idx(i as int, j as int),
    {
        proof {
            assert(0 * self.col_stride == 0 && 0 * self.row_stride == 0);
        }
        let a: i128 = (i as i128) * (self.row_stride as i128);
        let b: i128 = (j as i128) * (self.col_stride as i128);
        let k: i128 = (self.start as i128) + a + b;
        k as usize
    }

    /// The layout of a buffer that stores `nrows * ncols` elements column
    /// after column. The column stride is `nrows` wherever it is used.
    pub open spec fn column_major_spec(nrows: usize, ncols: usize) -> MatLayout {
        MatLayout {
            start: 0,
            nrows,
            ncols,
            row_stride: 1,
            col_stride: if nrows <= isize::MAX {
                nrows as isize
            } else {
                0
            },
        }
    }

    /// The layout of a buffer that stores `nrows * ncols` elements column
    /// after column.
    pub fn column_major(nrows: usize, ncols: usize) -> (r: MatLayout)
        requires
            nrows * ncols <= usize::MAX,
        ensures
            r == Self::column_major_spec(nrows, ncols),
            r.wf((nrows * ncols) as nat),
            r.nrows == nrows,
            r.ncols == ncols,
            r.start == 0,
            r.row_stride == 1,
            forall|i: int, j: int| r.has(i, j) ==> #[trigger] r.idx(i, j) == i + j * nrows,
    {
        let col_stride: isize = if nrows <= isize::MAX as usize {
            nrows as isize
        } else {
            0
        };
        let r = MatLayout { start: 0, nrows, ncols, row_stride: 1, col_stride };
        proof {
            assert forall|i: int, j: int| r.has(i, j) implies #[trigger] r.idx(i, j) == i + j
                * nrows by {
                if nrows > isize::MAX {
                    assert(ncols <= 1) by (nonlinear_arith)
                        requires
                            nrows * ncols <= usize::MAX,
                            nrows > isize::MAX,
                            usize::MAX <= 2 * isize::MAX + 1,
                            0 <= ncols,
                    ;
                }
            }
            assert forall|i: int, j: int| r.has(i, j) implies 0 <= #[trigger] r.idx(i, j) < nrows
                * ncols by {
                assert(0 <= j * nrows && j * nrows + nrows <= nrows * ncols) by (nonlinear_arith)
                    requires
                        0 <= j < ncols,
                        0 <= nrows,
                ;
            }
            assert forall|i: int, j: int, i2: int, j2: int|
                r.has(i, j) && r.has(i2, j2) && #[trigger] r.idx(i, j) == #[trigger] r.idx(
                    i2,
                    j2,
                ) implies i == i2 && j == j2 by {
                assert(j == j2) by (nonlinear_arith)
                    requires
                        0 <= i < nrows,
                        0 <= i2 < nrows,
                        i + j * nrows == i2 + j2 * nrows,
                ;
            }
        }
        r
    }

    /// The layout of the transposed view.
    pub fn transpose(&self) -> (t: MatLayout)
        ensures
            self.is_transpose(t),
    {
        MatLayout {
            start: self.start,
            nrows: self.ncols,
            ncols: self.nrows,
            row_stride: self.col_stride,
            col_stride: self.row_stride,
        }
    }

    /// The layout of the window of `nrows` by `ncols` entries that starts at
    /// `(r0, c0)`. An empty window is addressed from position zero.
    pub(crate) fn window(&self, r0: usize, c0: usize, nrows: usize, ncols: usize, Ghost(len): Ghost<
        nat,
    >) -> (sub: MatLayout)
        requires
            self.wf(len),
            r0 + nrows <= self.nrows,
            c0 + ncols <= self.ncols,
        ensures
            sub.wf(len),
            sub.nrows == nrows,
            sub.ncols == ncols,
            self.is_window(sub, r0 as int, c0 as int),
    {
        if nrows == 0 || ncols == 0 {
            MatLayout {
                start: 0,
                nrows,
                ncols,
                row_stride: self.row_stride,
                col_stride: self.col_stride,
            }
        } else {
            proof {
                self.lemma_addressable(len, r0 as int, c0 as int);
            }
            let start = self.offset(r0, c0);
            let sub = MatLayout {
                start,
                nrows,
                ncols,
                row_stride: self.row_stride,
                col_stride: self.col_stride,
            };
            proof {
                assert forall|i: int, j: int| sub.has(i, j) implies #[trigger] sub.idx(i, j)
                    == self.idx(r0 + i, c0 + j) by {
                    lemma_stride_distributes(r0 as int, i, self.row_stride as int);
                    lemma_stride_distributes(c0 as int, j, self.col_stride as int);
                }
                assert forall|i: int, j: int| sub.has(i, j) implies 0 <= #[trigger] sub.idx(i, j)
                    < len by {
                    assert(self.has(r0 + i, c0 + j));
                }
                assert forall|i: int, j: int, i2: int, j2: int|
                    sub.has(i, j) && sub.has(i2, j2) && #[trigger] sub.idx(i, j)
                        == #[trigger] sub.idx(i2, j2) implies i == i2 && j == j2 by {
                    assert(self.has(r0 + i, c0 + j));
                    assert(self.has(r0 + i2, c0 + j2));
                    assert(self.idx(r0 + i, c0 + j) == self.idx(r0 + i2, c0 + j2));
                }
            }
            sub
        }
    }

    /// The layout of the view with the rows in reverse order: it starts at
    /// the last row, and the row stride is negated.
    pub(crate) fn reverse_rows(&self, Ghost(len): Ghost<nat>) -> (r: MatLayout)
        requires
            self.wf(len),
        ensures
            r.wf(len),
            self.is_row_reversal(r),
    {
        if self.nrows == 0 || self.ncols == 0 {
            MatLayout {
                start: self.start,
                nrows: self.nrows,
                ncols: self.ncols,
                row_stride: -self.row_stride,
                col_stride: self.col_stride,
            }
        } else {
            proof {
                self.lemma_addressable(len, self.nrows - 1, 0);
            }
            let start = self.offset(self.nrows - 1, 0);
            let r = MatLayout {
                start,
                nrows: self.nrows,
                ncols: self.ncols,
                row_stride: -self.row_stride,
                col_stride: self.col_stride,
            };
            proof {
                assert forall|i: int, j: int| r.has(i, j) implies #[trigger] r.idx(i, j)
                    == self.idx(self.nrows - 1 - i, j) by {
                    lemma_stride_distributes(self.nrows - 1, i, self.row_stride as int);
                    lemma_stride_distributes(i, 0, self.row_stride as int);
                    assert(0 * self.col_stride == 0);
                }
                assert forall|i: int, j: int| r.has(i, j) implies 0 <= #[trigger] r.idx(i, j)
                    < len by {
                    assert(self.has(self.nrows - 1 - i, j));
                }
                assert forall|i: int, j: int, i2: int, j2: int|
                    r.has(i, j) && r.has(i2, j2) && #[trigger] r.idx(i, j) == #[trigger] r.idx(
                        i2,
                        j2,
                    ) implies i == i2 && j == j2 by {
                    assert(self.has(self.nrows - 1 - i, j));
                    assert(self.has(self.nrows - 1 - i2, j2));
                    assert(self.idx(self.nrows - 1 - i, j) == self.idx(self.nrows - 1 - i2, j2));
                }
            }
            r
        }
    }

    /// A view with the rows reversed covers the same positions and shows the
    /// logical matrix with its rows reversed.
    pub proof fn lemma_row_reversal<T>(self, r: MatLayout, d: Seq<T>)
        requires
            self.is_row_reversal(r),
        ensures
            forall|k: int| r.covers(k) == self.covers(k),
            r.model(d) == crate::algebra::reverse_rows(self.model(d)),
            self.model(d) == crate::algebra::reverse_rows(r.model(d)),
    {
        assert forall|k: int| r.covers(k) == self.covers(k) by {
            if r.covers(k) {
                let (i, j) = choose|i: int, j: int| r.has(i, j) && #[trigger] r.idx(i, j) == k;
                assert(self.has(self.nrows - 1 - i, j) && self.idx(self.nrows - 1 - i, j) == k);
            }
            if self.covers(k) {
                let (i, j) = choose|i: int, j: int|
                    self.has(i, j) && #[trigger] self.idx(i, j) == k;
                assert(r.has(self.nrows - 1 - i, j));
                assert(r.idx(self.nrows - 1 - i, j) == self.idx(
                    self.nrows - 1 - (self.nrows - 1 - i),
                    j,
                ));
            }
        }
        assert forall|i: int, j: int| r.has(i, j) implies r.model(d)[i][j] == self.model(
            d,
        )[self.nrows - 1 - i][j] by {
            assert(r.idx(i, j) == self.idx(self.nrows - 1 - i, j));
        }
        assert(r.model(d) =~~= crate::algebra::reverse_rows(self.model(d)));
        assert(self.model(d) =~~= crate::algebra::reverse_rows(r.model(d)));
    }

    /// Views that cover the same positions frame the same buffer contents.
    pub proof fn lemma_same_cover_frame<T>(self, other: MatLayout, d0: Seq<T>, d1: Seq<T>)
        requires
            forall|k: int| other.covers(k) == self.covers(k),
            other.frame(d0, d1),
        ensures
            self.frame(d0, d1),
    {
    }

    /// A transposed layout is well formed over the same buffer and shows the
    /// transposed matrix.
    pub proof fn lemma_transpose(self, t: MatLayout, len: nat)
        requires
            self.wf(len),
            self.is_transpose(t),
        ensures
            t.wf(len),
            forall|i: int, j: int| t.idx(i, j) == self.idx(j, i),
            forall|k: int| t.covers(k) == self.covers(k),
    {
        assert forall|i: int, j: int| t.idx(i, j) == self.idx(j, i) by {}
        assert forall|i: int, j: int| t.has(i, j) implies 0 <= #[trigger] t.idx(i, j) < len by {
            assert(self.has(j, i));
            assert(t.idx(i, j) == self.idx(j, i));
        }
        assert forall|i: int, j: int, i2: int, j2: int|
            t.has(i, j) && t.has(i2, j2) && #[trigger] t.idx(i, j) == #[trigger] t.idx(
                i2,
                j2,
            ) implies i == i2 && j == j2 by {
            assert(self.has(j, i) && self.has(j2, i2));
            assert(self.idx(j, i) == self.idx(j2, i2));
        }
        assert forall|k: int| t.covers(k) == self.covers(k) by {
            if t.covers(k) {
                let (i, j) = choose|i: int, j: int| t.has(i, j) && #[trigger] t.idx(i, j) == k;
                assert(self.has(j, i) && self.idx(j, i) == k);
            }
            if self.covers(k) {
                let (i, j) = choose|i: int, j: int|
                    self.has(i, j) && #[trigger] self.idx(i, j) == k;
                assert(t.has(j, i) && t.idx(j, i) == k);
            }
        }
    }

    /// Writing through a window changes the parent view inside the window
    /// only, and leaves the rest of the buffer alone.
    pub proof fn lemma_window_frame<T>(
        self,
        sub: MatLayout,
        r0: int,
        c0: int,
        d0: Seq<T>,
        d1: Seq<T>,
    )
        requires
            self.wf(d0.len()),
            self.is_window(sub, r0, c0),
            sub.frame(d0, d1),
        ensures
            self.frame(d0, d1),
            self.model(d1) == crate::algebra::replace_window(
                self.model(d0),
                r0,
                c0,
                sub.model(d1),
            ),
    {
        assert forall|k: int| 0 <= k < d0.len() && !self.covers(k) implies d1[k] == d0[k] by {
            if sub.covers(k) {
                let (i, j) = choose|i: int, j: int| sub.has(i, j) && #[trigger] sub.idx(i, j) == k;
                assert(self.has(r0 + i, c0 + j) && self.idx(r0 + i, c0 + j) == k);
            }
        }
        assert forall|i: int, j: int| self.has(i, j) implies #[trigger] self.model(d1)[i][j] == (
        if r0 <= i < r0 + sub.nrows && c0 <= j < c0 + sub.ncols {
            sub.model(d1)[i - r0][j - c0]
        } else {
            self.model(d0)[i][j]
        }) by {
            let k = self.idx(i, j);
            if r0 <= i < r0 + sub.nrows && c0 <= j < c0 + sub.ncols {
                assert(sub.has(i - r0, j - c0));
                assert(sub.idx(i - r0, j - c0) == self.idx(r0 + (i - r0), c0 + (j - c0)));
            } else {
                if sub.covers(k) {
                    let (i2, j2) = choose|i2: int, j2: int|
                        sub.has(i2, j2) && #[trigger] sub.idx(i2, j2) == k;
                    assert(self.has(r0 + i2, c0 + j2));
                    assert(self.idx(r0 + i2, c0 + j2) == self.idx(i, j));
                }
            }
        }
        assert(self.model(d1) =~~= crate::algebra::replace_window(
            self.model(d0),
            r0,
            c0,
            sub.model(d1),
        ));
    }

    /// A window of a window is a window.
    pub proof fn lemma_window_compose(
        self,
        mid: MatLayout,
        sub: MatLayout,
        r1: int,
        c1: int,
        r2: int,
        c2: int,
    )
        requires
            self.is_window(mid, r1, c1),
            mid.is_window(sub, r2, c2),
        ensures
            self.is_window(sub, r1 + r2, c1 + c2),
    {
        assert forall|i: int, j: int| sub.has(i, j) implies #[trigger] sub.idx(i, j) == self.idx(
            r1 + r2 + i,
            c1 + c2 + j,
        ) by {
            assert(mid.has(r2 + i, c2 + j));
            assert(mid.idx(r2 + i, c2 + j) == self.idx(r1 + (r2 + i), c1 + (c2 + j)));
        }
    }

    /// A window shows the corresponding window of the logical matrix.
    pub proof fn lemma_window_model<T>(self, sub: MatLayout, r0: int, c0: int, d: Seq<T>)
        requires
            self.is_window(sub, r0, c0),
        ensures
            sub.model(d) == crate::algebra::window(
                self.model(d),
                r0,
                c0,
                sub.nrows as nat,
                sub.ncols as nat,
            ),
    {
        assert(sub.model(d) =~~= crate::algebra::window(
            self.model(d),
            r0,
            c0,
            sub.nrows as nat,
            sub.ncols as nat,
        ));
    }

    /// Whether `part` addresses, in a buffer that starts `offset` positions
    /// into the buffer of `self`, the rows of the column `self` from `r0` on.
    pub open spec fn is_col_part(self, part: MatLayout, r0: int, offset: int) -> bool {
        &&& part.ncols == 1
        &&& 0 <= r0
        &&& r0 + part.nrows <= self.nrows
        &&& forall|i: int|
            0 <= i < part.nrows ==> #[trigger] part.idx(i, 0) + offset == self.idx(r0 + i, 0)
    }

    /// A part of a column that lies inside its own stretch of the buffer is
    /// well formed over that stretch.
    pub proof fn lemma_col_part_wf(self, part: MatLayout, r0: int, offset: int, len: nat, part_len: nat)
        requires
            self.col_wf(len),
            self.is_col_part(part, r0, offset),
            part.row_stride > isize::MIN,
            part.col_stride > isize::MIN,
            part_len <= len,
            forall|i: int|
                0 <= i < part.nrows ==> offset <= #[trigger] self.idx(r0 + i, 0) < offset
                    + part_len,
        ensures
            part.col_wf(part_len),
    {
        assert forall|i: int, j: int| part.has(i, j) implies 0 <= #[trigger] part.idx(i, j)
            < part_len by {
            assert(part.idx(i, 0) + offset == self.idx(r0 + i, 0));
        }
        assert forall|i: int, j: int, i2: int, j2: int|
            part.has(i, j) && part.has(i2, j2) && #[trigger] part.idx(i, j) == #[trigger] part.idx(
                i2,
                j2,
            ) implies i == i2 && j == j2 by {
            assert(part.idx(i, 0) + offset == self.idx(r0 + i, 0));
            assert(part.idx(i2, 0) + offset == self.idx(r0 + i2, 0));
            assert(self.has(r0 + i, 0) && self.has(r0 + i2, 0));
        }
    }

    /// A column split in two parts that lie in the two halves of its buffer:
    /// what the parts show of the halves is what the column shows of the
    /// whole, and changes framed by the parts are framed by the column.
    /// `first` and `second` are the halves of the buffer before, `first2` and
    /// `second2` after; `low` is the part in the first half and `high` the
    /// part in the second, of which the one that holds the rows from `0` on
    /// is the top of the column.
    pub proof fn lemma_col_split<T>(
        self,
        low: MatLayout,
        high: MatLayout,
        low_r0: int,
        high_r0: int,
        first: Seq<T>,
        second: Seq<T>,
        first2: Seq<T>,
        second2: Seq<T>,
    )
        requires
            self.col_wf(first.len() + second.len()),
            self.is_col_part(low, low_r0, 0),
            self.is_col_part(high, high_r0, first.len() as int),
            low.col_wf(first.len()),
            high.col_wf(second.len()),
            (low_r0 == 0 && high_r0 == low.nrows) || (high_r0 == 0 && low_r0 == high.nrows),
            low.nrows + high.nrows == self.nrows,
            low.frame(first, first2),
            high.frame(second, second2),
        ensures
            self.frame(first + second, first2 + second2),
            forall|i: int|
                0 <= i < low.nrows ==> #[trigger] self.col_model(first2 + second2)[low_r0 + i]
                    == low.col_model(first2)[i],
            forall|i: int|
                0 <= i < high.nrows ==> #[trigger] self.col_model(first2 + second2)[high_r0 + i]
                    == high.col_model(second2)[i],
            forall|i: int|
                0 <= i < low.nrows ==> #[trigger] self.col_model(first + second)[low_r0 + i]
                    == low.col_model(first)[i],
            forall|i: int|
                0 <= i < high.nrows ==> #[trigger] self.col_model(first + second)[high_r0 + i]
                    == high.col_model(second)[i],
    {
        let d0 = first + second;
        let d1 = first2 + second2;
        let cut = first.len() as int;
        assert forall|i: int| 0 <= i < low.nrows implies self.idx(low_r0 + i, 0) == low.idx(i, 0)
            && 0 <= low.idx(i, 0) < cut by {
            assert(low.has(i, 0));
            assert(low.idx(i, 0) + 0 == self.idx(low_r0 + i, 0));
        }
        assert forall|i: int| 0 <= i < high.nrows implies self.idx(high_r0 + i, 0) == high.idx(i, 0)
            + cut && 0 <= high.idx(i, 0) < second.len() by {
            assert(high.has(i, 0));
            assert(high.idx(i, 0) + cut == self.idx(high_r0 + i, 0));
        }
        assert forall|k: int| 0 <= k < d0.len() && !self.covers(k) implies d1[k] == d0[k] by {
            if k < cut {
                if low.covers(k) {
                    let (i, j) = choose|i: int, j: int|
                        low.has(i, j) && #[trigger] low.idx(i, j) == k;
                    assert(self.has(low_r0 + i, 0));
                    assert(self.idx(low_r0 + i, 0) == k);
                }
            } else {
                if high.covers(k - cut) {
                    let (i, j) = choose|i: int, j: int|
                        high.has(i, j) && #[trigger] high.idx(i, j) == k - cut;
                    assert(self.has(high_r0 + i, 0));
                    assert(self.idx(high_r0 + i, 0) == k);
                }
            }
        }
    }

    /// A contiguous column over a whole buffer shows the buffer itself.
    pub proof fn lemma_contiguous_col<T>(len: usize, d: Seq<T>)
        requires
            d.len() == len,
        ensures
            Self::column_major_spec(len, 1).col_model(d) == d,
            Self::column_major_spec(len, 1).frame(d, d),
    {
        let lay = Self::column_major_spec(len, 1);
        assert forall|i: int| 0 <= i < len implies lay.col_model(d)[i] == d[i] by {
            assert(lay.idx(i, 0) == i) by (nonlinear_arith)
                requires
                    lay.idx(i, 0) == 0 + i * 1 + 0 * lay.col_stride,
            ;
        }
        assert(lay.col_model(d) =~= d);
    }

    /// The column model is the only column of the matrix model.
    pub proof fn lemma_col_model<T>(self, d: Seq<T>)
        requires
            self.ncols == 1,
        ensures
            self.col_model(d) == crate::algebra::column(self.model(d), 0),
            self.model(d) == crate::algebra::from_column(self.col_model(d)),
    {
        assert(self.col_model(d) =~= crate::algebra::column(self.model(d), 0));
        assert(self.model(d) =~~= crate::algebra::from_column(self.col_model(d)));
    }

    /// A window of a column shows the matching range of the column.
    pub proof fn lemma_col_window_model<T>(self, sub: MatLayout, r0: int, d: Seq<T>)
        requires
            self.is_window(sub, r0, 0),
            sub.ncols == 1,
        ensures
            sub.col_model(d) == self.col_model(d).subrange(r0, r0 + sub.nrows),
    {
        assert forall|i: int| 0 <= i < sub.nrows implies sub.col_model(d)[i] == self.col_model(
            d,
        )[r0 + i] by {
            assert(sub.has(i, 0));
        }
        assert(sub.col_model(d) =~= self.col_model(d).subrange(r0, r0 + sub.nrows));
    }

    /// A reversed column shows the column in reverse order.
    pub proof fn lemma_col_reversal_model<T>(self, r: MatLayout, d: Seq<T>)
        requires
            self.is_row_reversal(r),
            self.ncols == 1,
        ensures
            r.col_model(d) == crate::algebra::reversed(self.col_model(d)),
            self.col_model(d) == crate::algebra::reversed(r.col_model(d)),
    {
        assert forall|i: int| 0 <= i < r.nrows implies r.col_model(d)[i] == self.col_model(
            d,
        )[self.nrows - 1 - i] by {
            assert(r.has(i, 0));
        }
        assert(r.col_model(d) =~= crate::algebra::reversed(self.col_model(d)));
        assert(self.col_model(d) =~= crate::algebra::reversed(r.col_model(d)));
    }

    /// A transposed layout shows the transposed logical matrix.
    pub proof fn lemma_transpose_model<T>(self, t: MatLayout, d: Seq<T>)
        requires
            self.is_transpose(t),
        ensures
            t.model(d) == crate::algebra::transpose(self.model(d), self.ncols as nat),
            crate::algebra::is_matrix(self.model(d), self.nrows as nat, self.ncols as nat),
    {
        assert(t.model(d) =~~= crate::algebra::transpose(self.model(d), self.ncols as nat));
    }
}

} // verus!
