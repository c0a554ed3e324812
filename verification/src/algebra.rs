//! The mathematical model of the views: a column is a sequence of elements, a
//! matrix a sequence of rows of equal length. The contracts of the crate are
//! stated over these sequences.
use vstd::prelude::*;

verus! {

/// Whether `m` has `nrows` rows of `ncols` entries each.
pub open spec fn is_matrix<T>(m: Seq<Seq<T>>, nrows: nat, ncols: nat) -> bool {
    &&& m.len() == nrows
    &&& forall|i: int| 0 <= i < nrows ==> (#[trigger] m[i]).len() == ncols
}

/// Column `j` of `m`.
pub open spec fn column<T>(m: Seq<Seq<T>>, j: int) -> Seq<T> {
    Seq::new(m.len(), |i: int| m[i][j])
}

/// The matrix of one column that holds `c`.
pub open spec fn from_column<T>(c: Seq<T>) -> Seq<Seq<T>> {
    Seq::new(c.len(), |i: int| seq![c[i]])
}

/// The transpose of a matrix `m` of `ncols` columns.
pub open spec fn transpose<T>(m: Seq<Seq<T>>, ncols: nat) -> Seq<Seq<T>> {
    Seq::new(ncols, |j: int| Seq::new(m.len(), |i: int| m[i][j]))
}

/// The `nrows` by `ncols` window of `m` whose first entry is `(r0, c0)`.
pub open spec fn window<T>(m: Seq<Seq<T>>, r0: int, c0: int, nrows: nat, ncols: nat) -> Seq<
    Seq<T>,
> {
    Seq::new(nrows, |i: int| Seq::new(ncols, |j: int| m[r0 + i][c0 + j]))
}

/// `m` with the window that starts at `(r0, c0)` replaced by `sub`.
pub open spec fn replace_window<T>(m: Seq<Seq<T>>, r0: int, c0: int, sub: Seq<Seq<T>>) -> Seq<
    Seq<T>,
> {
    Seq::new(
        m.len(),
        |i: int|
            Seq::new(
                m[i].len(),
                |j: int|
                    if r0 <= i < r0 + sub.len() && c0 <= j < c0 + sub[i - r0].len() {
                        sub[i - r0][j - c0]
                    } else {
                        m[i][j]
                    },
            ),
    )
}

/// `c` with the entries from `r0` on replaced by `sub`.
pub open spec fn replace_range<T>(c: Seq<T>, r0: int, sub: Seq<T>) -> Seq<T> {
    Seq::new(c.len(), |i: int| if r0 <= i < r0 + sub.len() { sub[i - r0] } else { c[i] })
}

/// The rows of `m` in reverse order.
pub open spec fn reverse_rows<T>(m: Seq<Seq<T>>) -> Seq<Seq<T>> {
    Seq::new(m.len(), |i: int| m[m.len() - 1 - i])
}

/// Each row of `m` in reverse order.
pub open spec fn reverse_cols<T>(m: Seq<Seq<T>>) -> Seq<Seq<T>> {
    Seq::new(m.len(), |i: int| reversed(m[i]))
}

/// The entries of `c` in reverse order.
pub open spec fn reversed<T>(c: Seq<T>) -> Seq<T> {
    Seq::new(c.len(), |i: int| c[c.len() - 1 - i])
}

} // verus!
