//! Triangular solves in place.
//!
//! A lower triangular system is solved by forward substitution: the entries
//! of a solution column are computed from the first to the last, each from
//! the right-hand side minus the products of the row with the entries already
//! computed, subtracted one after the other from the first column on, and
//! then multiplied by the reciprocal of the diagonal entry. An upper
//! triangular system is the same substitution seen from the other end.
use crate::algebra;
use crate::mat::matmut::MatMut;
use crate::mat::matref::MatRef;
use crate::par::Par;
use crate::scalar::{apply_conj, ComplexField, Conj};
use vstd::prelude::*;

verus! {

/// Entry `i` of the right-hand side `b` minus the products of row `i` of
/// `tri` with the first `k` entries of the solution.
pub open spec fn lower_residual<T: ComplexField>(
    conj_lhs: Conj,
    tri: Seq<Seq<T>>,
    b: Seq<T>,
    i: int,
    k: int,
) -> T
    decreases i, k,
{
    if k <= 0 || k > i {
        b[i]
    } else {
        T::sub_spec(
            lower_residual(conj_lhs, tri, b, i, k - 1),
            T::mul_spec(
                crate::scalar::conj_if(conj_lhs, tri[i][k - 1]),
                lower_entry(conj_lhs, tri, b, k - 1),
            ),
        )
    }
}

/// Entry `i` of the solution `x` of `op(tri) * x = b` for a lower triangular
/// `tri`.
pub open spec fn lower_entry<T: ComplexField>(
    conj_lhs: Conj,
    tri: Seq<Seq<T>>,
    b: Seq<T>,
    i: int,
) -> T
    decreases i, i + 1,
{
    if i < 0 {
        b[i]
    } else {
        T::mul_spec(
            lower_residual(conj_lhs, tri, b, i, i),
            T::recip_spec(crate::scalar::conj_if(conj_lhs, tri[i][i])),
        )
    }
}

/// The solution `X` of `op(tri) * X = rhs` for a lower triangular `tri`,
/// column by column.
pub open spec fn solve_lower_spec<T: ComplexField>(
    tri: Seq<Seq<T>>,
    conj_lhs: Conj,
    rhs: Seq<Seq<T>>,
) -> Seq<Seq<T>> {
    Seq::new(
        rhs.len(),
        |i: int|
            Seq::new(
                rhs[i].len(),
                |j: int| lower_entry(conj_lhs, tri, algebra::column(rhs, j), i),
            ),
    )
}

/// The solution `X` of `op(tri) * X = rhs` for an upper triangular `tri`:
/// the lower triangular solve of the system with its rows and columns in
/// reverse order.
pub open spec fn solve_upper_spec<T: ComplexField>(
    tri: Seq<Seq<T>>,
    conj_lhs: Conj,
    rhs: Seq<Seq<T>>,
) -> Seq<Seq<T>> {
    algebra::reverse_rows(
        solve_lower_spec(
            algebra::reverse_cols(algebra::reverse_rows(tri)),
            conj_lhs,
            algebra::reverse_rows(rhs),
        ),
    )
}

/// The solution reads the right-hand side up to row `i` only.
pub proof fn lemma_lower_entry_ext<T: ComplexField>(
    conj_lhs: Conj,
    tri: Seq<Seq<T>>,
    b: Seq<T>,
    b2: Seq<T>,
    i: int,
)
    requires
        0 <= i,
        forall|a: int| 0 <= a <= i ==> #[trigger] b[a] == b2[a],
    ensures
        lower_entry(conj_lhs, tri, b, i) == lower_entry(conj_lhs, tri, b2, i),
    decreases i, i + 1,
{
    lemma_lower_residual_ext(conj_lhs, tri, b, b2, i, i);
}

/// The residual reads the right-hand side up to row `i` only.
pub proof fn lemma_lower_residual_ext<T: ComplexField>(
    conj_lhs: Conj,
    tri: Seq<Seq<T>>,
    b: Seq<T>,
    b2: Seq<T>,
    i: int,
    k: int,
)
    requires
        0 <= i,
        forall|a: int| 0 <= a <= i ==> #[trigger] b[a] == b2[a],
    ensures
        lower_residual(conj_lhs, tri, b, i, k) == lower_residual(conj_lhs, tri, b2, i, k),
    decreases i, k,
{
    if k <= 0 || k > i {
    } else {
        lemma_lower_residual_ext(conj_lhs, tri, b, b2, i, k - 1);
        lemma_lower_entry_ext(conj_lhs, tri, b, b2, k - 1);
    }
}

/// The columns of a lower triangular solve are independent of each other:
/// the solution for a range of columns of the right-hand side is that range
/// of columns of the solution.
pub proof fn lemma_solve_lower_columns<T: ComplexField>(
    tri: Seq<Seq<T>>,
    conj_lhs: Conj,
    rhs: Seq<Seq<T>>,
    start: int,
    len: nat,
    nrows: nat,
    ncols: nat,
)
    requires
        algebra::is_matrix(rhs, nrows, ncols),
        0 <= start,
        start + len <= ncols,
    ensures
        solve_lower_spec(tri, conj_lhs, algebra::window(rhs, 0, start, nrows, len))
            == algebra::window(solve_lower_spec(tri, conj_lhs, rhs), 0, start, nrows, len),
{
    let part_rhs = algebra::window(rhs, 0, start, nrows, len);
    let part = solve_lower_spec(tri, conj_lhs, part_rhs);
    let whole = solve_lower_spec(tri, conj_lhs, rhs);
    assert forall|i: int, j: int| 0 <= i < nrows && 0 <= j < len implies part[i][j]
        == whole[i][start + j] by {
        lemma_lower_entry_ext(
            conj_lhs,
            tri,
            algebra::column(part_rhs, j),
            algebra::column(rhs, start + j),
            i,
        );
    }
    assert(part =~~= algebra::window(whole, 0, start, nrows, len));
}

/// The columns of an upper triangular solve are independent of each other.
pub proof fn lemma_solve_upper_columns<T: ComplexField>(
    tri: Seq<Seq<T>>,
    conj_lhs: Conj,
    rhs: Seq<Seq<T>>,
    start: int,
    len: nat,
    nrows: nat,
    ncols: nat,
)
    requires
        algebra::is_matrix(rhs, nrows, ncols),
        0 <= start,
        start + len <= ncols,
    ensures
        solve_upper_spec(tri, conj_lhs, algebra::window(rhs, 0, start, nrows, len))
            == algebra::window(solve_upper_spec(tri, conj_lhs, rhs), 0, start, nrows, len),
{
    let rev_tri = algebra::reverse_cols(algebra::reverse_rows(tri));
    let rev_rhs = algebra::reverse_rows(rhs);
    let part_rhs = algebra::window(rhs, 0, start, nrows, len);
    lemma_solve_lower_columns(rev_tri, conj_lhs, rev_rhs, start, len, nrows, ncols);
    assert(algebra::reverse_rows(part_rhs) =~~= algebra::window(rev_rhs, 0, start, nrows, len));
    let whole_lower = solve_lower_spec(rev_tri, conj_lhs, rev_rhs);
    assert(algebra::reverse_rows(algebra::window(whole_lower, 0, start, nrows, len))
        =~~= algebra::window(algebra::reverse_rows(whole_lower), 0, start, nrows, len));
}

/// Solves `op(triangular_lower) * X = rhs` in place, where `op` conjugates
/// the matrix when `conj_lhs` says so. Only the lower triangle of
/// `triangular_lower` is read.
pub fn solve_lower_triangular_in_place_with_conj<T: ComplexField>(
    triangular_lower: MatRef<'_, T>,
    conj_lhs: Conj,
    rhs: MatMut<'_, T>,
    par: Par,
)
    requires
        triangular_lower.wf(),
        rhs.wf(),
        triangular_lower.nrows() == triangular_lower.ncols(),
        rhs.nrows() == triangular_lower.ncols(),
    ensures
        rhs.layout.frame(old(rhs.data)@, final(rhs.data)@),
        rhs.layout.model(final(rhs.data)@) == solve_lower_spec(triangular_lower@, conj_lhs, rhs@),
{
    let ghost r0 = rhs@;
    let ghost data0 = rhs.data@;
    let ghost fin = final(rhs.data)@;
    let ghost lay = rhs.layout;
    let ghost tri = triangular_lower@;
    let ghost goal = solve_lower_spec(tri, conj_lhs, r0);
    let mut rhs = rhs;
    let n = rhs.nrows();
    let ncols = rhs.ncols();
    let mut j: usize = 0;
    while j < ncols
        invariant
            j <= ncols,
            n == lay.nrows,
            ncols == lay.ncols,
            triangular_lower.wf(),
            triangular_lower.nrows() == n,
            triangular_lower.ncols() == n,
            tri == triangular_lower@,
            rhs.wf(),
            rhs.layout == lay,
            lay.frame(data0, rhs.data@),
            final(rhs.data)@ == fin,
            r0 == lay.model(data0),
            goal == solve_lower_spec(tri, conj_lhs, r0),
            forall|a: int, b: int|
                0 <= a < n && 0 <= b < ncols ==> #[trigger] rhs@[a][b] == (if b < j {
                    goal[a][b]
                } else {
                    r0[a][b]
                }),
        decreases ncols - j,
    {
        let ghost col = algebra::column(r0, j as int);
        let mut i: usize = 0;
        while i < n
            invariant
                i <= n,
                j < ncols,
                n == lay.nrows,
                ncols == lay.ncols,
                triangular_lower.wf(),
                triangular_lower.nrows() == n,
                triangular_lower.ncols() == n,
                tri == triangular_lower@,
                rhs.wf(),
                rhs.layout == lay,
                lay.frame(data0, rhs.data@),
                final(rhs.data)@ == fin,
                r0 == lay.model(data0),
                col == algebra::column(r0, j as int),
                goal == solve_lower_spec(tri, conj_lhs, r0),
                forall|a: int, b: int|
                    0 <= a < n && 0 <= b < ncols ==> #[trigger] rhs@[a][b] == (if b < j || (b == j
                        && a < i) {
                        goal[a][b]
                    } else {
                        r0[a][b]
                    }),
            decreases n - i,
        {
            let mut acc = rhs.read(i, j);
            let mut k: usize = 0;
            while k < i
                invariant
                    k <= i,
                    i < n,
                    j < ncols,
                    n == lay.nrows,
                    ncols == lay.ncols,
                    triangular_lower.wf(),
                    triangular_lower.nrows() == n,
                    triangular_lower.ncols() == n,
                    tri == triangular_lower@,
                    rhs.wf(),
                    rhs.layout == lay,
                    r0 == lay.model(data0),
                    col == algebra::column(r0, j as int),
                    goal == solve_lower_spec(tri, conj_lhs, r0),
                    forall|a: int| 0 <= a < i ==> #[trigger] rhs@[a][j as int] == goal[a][j as int],
                    acc == lower_residual(conj_lhs, tri, col, i as int, k as int),
                decreases i - k,
            {
                let l = apply_conj(conj_lhs, triangular_lower.read(i, k));
                let x = rhs.read(k, j);
                proof {
                    assert(x == goal[k as int][j as int]);
                    assert(goal[k as int][j as int] == lower_entry(conj_lhs, tri, col, k as int));
                }
                acc = T::sub_impl(acc, T::mul_impl(l, x));
                k += 1;
            }
            let d = apply_conj(conj_lhs, triangular_lower.read(i, i));
            let value = T::mul_impl(acc, T::recip_impl(d));
            proof {
                assert(value == goal[i as int][j as int]);
            }
            rhs.write(i, j, value);
            i += 1;
        }
        j += 1;
    }
    proof {
        assert(rhs@ =~~= goal);
    }
}

/// Solves `op(triangular_upper) * X = rhs` in place, where `op` conjugates
/// the matrix when `conj_lhs` says so. Only the upper triangle of
/// `triangular_upper` is read.
pub fn solve_upper_triangular_in_place_with_conj<T: ComplexField>(
    triangular_upper: MatRef<'_, T>,
    conj_lhs: Conj,
    rhs: MatMut<'_, T>,
    par: Par,
)
    requires
        triangular_upper.wf(),
        rhs.wf(),
        triangular_upper.nrows() == triangular_upper.ncols(),
        rhs.nrows() == triangular_upper.ncols(),
    ensures
        rhs.layout.frame(old(rhs.data)@, final(rhs.data)@),
        rhs.layout.model(final(rhs.data)@) == solve_upper_spec(triangular_upper@, conj_lhs, rhs@),
{
    let ghost lay = rhs.layout;
    let ghost data0 = rhs.data@;
    let ghost fin = final(rhs.data)@;
    let reversed = rhs.reverse_rows_mut();
    let ghost rlay = reversed.layout;
    solve_lower_triangular_in_place_with_conj(
        triangular_upper.reverse_rows_and_cols(),
        conj_lhs,
        reversed,
        par,
    );
    proof {
        lay.lemma_row_reversal(rlay, fin);
        lay.lemma_row_reversal(rlay, data0);
        lay.lemma_same_cover_frame(rlay, data0, fin);
    }
}

} // verus!
