//! Rank-r update of an LDLT factorization.
//!
//! Given the factorization of a matrix `A`, a matrix `W` of `k` columns and
//! a real diagonal `alpha`, the update computes in place the factorization
//! of `A + W diag(alpha) Wᴴ`, by the recurrence of Fletcher and Powell. The
//! columns of the factorization are updated in order. In a column, the
//! columns of `W` that are active are taken one after the other: each gives
//! a new pivot, a multiplier `beta` and a deflated `alpha`, and then every
//! row below the pivot is updated with them. `W` and `alpha` are used as
//! working storage: what they hold afterwards is part of the contract, but
//! of no use to the caller.
use crate::algebra;
use crate::col::colmut::ColMut;
use crate::col::colref::ColRef;
use crate::diag::diagmut::DiagMut;
use crate::mat::matmut::MatMut;
use crate::scalar::{ComplexField, RealField};
use vstd::prelude::*;

verus! {

/// The new pivot that the column `p` of the perturbation with scale `alpha`
/// gives to the pivot `d`: `re(d) + re(alpha * conj(p) * p)`.
pub open spec fn new_pivot<T: ComplexField>(d: T, alpha: T, p: T) -> T::Real {
    T::Real::add_spec(
        T::real_part_spec(d),
        T::real_part_spec(T::mul_spec(T::mul_spec(alpha, T::conj_spec(p)), p)),
    )
}

/// The multiplier `beta = alpha * conj(p) / new_pivot`.
pub open spec fn multiplier<T: ComplexField>(d: T, alpha: T, p: T) -> T {
    T::mul_real_spec(
        T::mul_spec(alpha, T::conj_spec(p)),
        T::Real::recip_spec(new_pivot(d, alpha, p)),
    )
}

/// The deflated scale `re(alpha) - new_pivot * |beta|²`.
pub open spec fn deflated<T: ComplexField>(d: T, alpha: T, p: T) -> T {
    T::from_real_spec(
        T::Real::sub_spec(
            T::real_part_spec(alpha),
            T::Real::mul_spec(new_pivot(d, alpha, p), T::abs2_spec(multiplier(d, alpha, p))),
        ),
    )
}

/// The pivot after the first `c` columns of the perturbation were taken
/// into account, starting from `d`. `alpha` holds the scales and `w` the row
/// of the perturbation that belongs to the pivot.
pub open spec fn pivot_after<T: ComplexField>(d: T, alpha: Seq<T>, w: Seq<T>, c: int) -> T
    decreases c,
{
    if c <= 0 {
        d
    } else {
        T::from_real_spec(new_pivot(pivot_after(d, alpha, w, c - 1), alpha[c - 1], w[c - 1]))
    }
}

/// The multiplier of column `c` of the perturbation.
pub open spec fn multiplier_at<T: ComplexField>(d: T, alpha: Seq<T>, w: Seq<T>, c: int) -> T {
    multiplier(pivot_after(d, alpha, w, c), alpha[c], w[c])
}

/// The deflated scale of column `c` of the perturbation.
pub open spec fn deflated_at<T: ComplexField>(d: T, alpha: Seq<T>, w: Seq<T>, c: int) -> T {
    deflated(pivot_after(d, alpha, w, c), alpha[c], w[c])
}

/// `a * b + c`, fused or as a product followed by a sum.
pub open spec fn multiply_add<T: ComplexField>(fused: bool, a: T, b: T, c: T) -> T {
    if fused {
        T::mul_add_spec(a, b, c)
    } else {
        T::add_spec(T::mul_spec(a, b), c)
    }
}

/// Whether the rows are updated by the vectorised step, whose
/// multiply-adds are fused: the element type allows it and the rows of the
/// factorization and of the perturbation are contiguous in memory.
pub open spec fn uses_fused_kernel<T: ComplexField>(
    ld: crate::layout::MatLayout,
    w: crate::layout::MatLayout,
) -> bool {
    T::simd_capable_spec() && ld.row_stride == 1 && w.row_stride == 1
}

/// An entry `l` of the factorization below the pivot after the first `c`
/// columns were applied to its row: for each column in turn, the entry `w`
/// of the perturbation becomes `p * l + w`, and `l` becomes `beta * w + l`
/// with the new `w`.
pub open spec fn step_l<T: ComplexField>(
    fused: bool,
    l: T,
    p: Seq<T>,
    beta: Seq<T>,
    w: Seq<T>,
    c: int,
) -> T
    decreases c,
{
    if c <= 0 {
        l
    } else {
        let prev = step_l(fused, l, p, beta, w, c - 1);
        multiply_add(fused, beta[c - 1], multiply_add(fused, p[c - 1], prev, w[c - 1]), prev)
    }
}

/// The entry of column `c` of the perturbation after the update of its row.
pub open spec fn step_w<T: ComplexField>(
    fused: bool,
    l: T,
    p: Seq<T>,
    beta: Seq<T>,
    w: Seq<T>,
    c: int,
) -> T {
    multiply_add(fused, p[c], step_l(fused, l, p, beta, w, c), w[c])
}

/// Taking the columns in two runs is taking them in one: the columns from
/// `c0` on, applied to the entry that the first `c0` columns left, give what
/// all of them give.
pub proof fn lemma_step_shift<T: ComplexField>(
    fused: bool,
    l: T,
    p: Seq<T>,
    beta: Seq<T>,
    w: Seq<T>,
    c0: int,
    p_rest: Seq<T>,
    beta_rest: Seq<T>,
    w_rest: Seq<T>,
    c: int,
)
    requires
        0 <= c0,
        0 <= c,
        forall|a: int|
            0 <= a < c ==> p_rest[a] == p[c0 + a] && beta_rest[a] == beta[c0 + a] && w_rest[a] == w[c0 + a],
    ensures
        step_l(fused, step_l(fused, l, p, beta, w, c0), p_rest, beta_rest, w_rest, c) == step_l(
            fused,
            l,
            p,
            beta,
            w,
            c0 + c,
        ),
    decreases c,
{
    if c > 0 {
        lemma_step_shift(fused, l, p, beta, w, c0, p_rest, beta_rest, w_rest, c - 1);
    }
}

/// Computes `a * b + c`, fused or as a product followed by a sum.
fn multiply_add_impl<T: ComplexField>(fused: bool, a: T, b: T, c: T) -> (r: T)
    ensures
        r == multiply_add(fused, a, b, c),
{
    if fused {
        T::mul_add_impl(a, b, c)
    } else {
        T::add_impl(T::mul_impl(a, b), c)
    }
}

/// Updates the rows of the column `L` of the factorization and of the
/// columns `W` of the perturbation with the scalars `p` and `beta`, one
/// pair for each column of `W`, of which there are one to four. With
/// `fused` every multiply-add is fused.
fn rank_update_step<T: ComplexField>(
    L: ColMut<'_, T>,
    W: MatMut<'_, T>,
    p: ColRef<'_, T>,
    beta: ColRef<'_, T>,
    fused: bool,
)
    requires
        L.wf(),
        W.wf(),
        p.wf(),
        beta.wf(),
        1 <= W.ncols() <= 4,
        W.ncols() <= p.nrows(),
        W.ncols() <= beta.nrows(),
        W.nrows() <= L.nrows(),
    ensures
        L.layout.frame(old(L.data)@, final(L.data)@),
        W.layout.frame(old(W.data)@, final(W.data)@),
        L.layout.col_model(final(L.data)@) == Seq::new(
            L.nrows() as nat,
            |i: int|
                if i < W.nrows() {
                    step_l(fused, L@[i], p@, beta@, W@[i], W.ncols() as int)
                } else {
                    L@[i]
                },
        ),
        W.layout.model(final(W.data)@) == Seq::new(
            W.nrows() as nat,
            |i: int| Seq::new(W.ncols() as nat, |c: int| step_w(fused, L@[i], p@, beta@, W@[i], c)),
        ),
{
    let ghost l0 = L@;
    let ghost w0 = W@;
    let ghost ldata0 = L.data@;
    let ghost wdata0 = W.data@;
    let ghost lfin = final(L.data)@;
    let ghost wfin = final(W.data)@;
    let ghost llay = L.layout;
    let ghost wlay = W.layout;
    let mut L = L;
    let mut W = W;
    let n = W.nrows();
    let r = W.ncols();
    proof {
        assert(llay.frame(ldata0, ldata0));
        assert(wlay.frame(wdata0, wdata0));
    }
    let mut i: usize = 0;
    while i < n
        invariant
            i <= n,
            n == wlay.nrows,
            r == wlay.ncols,
            n <= llay.nrows,
            r <= p.nrows(),
            r <= beta.nrows(),
            p.wf(),
            beta.wf(),
            L.wf(),
            W.wf(),
            L.layout == llay,
            W.layout == wlay,
            llay.frame(ldata0, L.data@),
            wlay.frame(wdata0, W.data@),
            final(L.data)@ == lfin,
            final(W.data)@ == wfin,
            l0 == llay.col_model(ldata0),
            w0 == wlay.model(wdata0),
            forall|a: int|
                0 <= a < llay.nrows ==> #[trigger] L@[a] == (if a < i {
                    step_l(fused, l0[a], p@, beta@, w0[a], r as int)
                } else {
                    l0[a]
                }),
            forall|a: int, c: int|
                0 <= a < n && 0 <= c < r ==> #[trigger] W@[a][c] == (if a < i {
                    step_w(fused, l0[a], p@, beta@, w0[a], c)
                } else {
                    w0[a][c]
                }),
        decreases n - i,
    {
        let mut l = L.read(i);
        let mut c: usize = 0;
        while c < r
            invariant
                c <= r,
                i < n,
                n == wlay.nrows,
                r == wlay.ncols,
                r <= p.nrows(),
                r <= beta.nrows(),
                p.wf(),
                beta.wf(),
                W.wf(),
                W.layout == wlay,
                wlay.frame(wdata0, W.data@),
                final(W.data)@ == wfin,
                w0 == wlay.model(wdata0),
                l == step_l(fused, l0[i as int], p@, beta@, w0[i as int], c as int),
                forall|a: int, b: int|
                    0 <= a < n && 0 <= b < r ==> #[trigger] W@[a][b] == (if a < i || (a == i && b
                        < c) {
                        step_w(fused, l0[a], p@, beta@, w0[a], b)
                    } else {
                        w0[a][b]
                    }),
            decreases r - c,
        {
            let w = multiply_add_impl(fused, p.read(c), l, W.read(i, c));
            l = multiply_add_impl(fused, beta.read(c), w, l);
            W.write(i, c, w);
            c += 1;
        }
        L.write(i, l);
        i += 1;
    }
    proof {
        assert(L@ =~= Seq::new(
            llay.nrows as nat,
            |i: int|
                if i < n {
                    step_l(fused, l0[i], p@, beta@, w0[i], r as int)
                } else {
                    l0[i]
                },
        ));
        assert(W@ =~~= Seq::new(
            n as nat,
            |i: int| Seq::new(r as nat, |c: int| step_w(fused, l0[i], p@, beta@, w0[i], c)),
        ));
    }
}

/// Updates the rows of the column `L` of the factorization and of the
/// columns `W` of the perturbation with the scalars `p` and `beta`, one
/// pair for each column of `W`, of which there are one to four. Every
/// multiply-add is a product followed by a sum.
pub fn rank_update_step_fallback<T: ComplexField>(
    L: ColMut<'_, T>,
    W: MatMut<'_, T>,
    p: ColRef<'_, T>,
    beta: ColRef<'_, T>,
)
    requires
        L.wf(),
        W.wf(),
        p.wf(),
        beta.wf(),
        1 <= W.ncols() <= 4,
        W.ncols() <= p.nrows(),
        W.ncols() <= beta.nrows(),
        W.nrows() <= L.nrows(),
    ensures
        L.layout.frame(old(L.data)@, final(L.data)@),
        W.layout.frame(old(W.data)@, final(W.data)@),
        L.layout.col_model(final(L.data)@) == Seq::new(
            L.nrows() as nat,
            |i: int|
                if i < W.nrows() {
                    step_l(false, L@[i], p@, beta@, W@[i], W.ncols() as int)
                } else {
                    L@[i]
                },
        ),
        W.layout.model(final(W.data)@) == Seq::new(
            W.nrows() as nat,
            |i: int| Seq::new(W.ncols() as nat, |c: int| step_w(false, L@[i], p@, beta@, W@[i], c)),
        ),
{
    rank_update_step(L, W, p, beta, false)
}

/// The step for rows that are contiguous in memory, as a vector unit takes
/// it: the same update as `rank_update_step_fallback`, row by row, with
/// every multiply-add fused. `align_offset` says how far the first row is
/// from an aligned address; it has no bearing on the result.
pub fn rank_update_step_simd<T: ComplexField>(
    L: ColMut<'_, T>,
    W: MatMut<'_, T>,
    p: ColRef<'_, T>,
    beta: ColRef<'_, T>,
    align_offset: usize,
)
    requires
        L.wf(),
        W.wf(),
        p.wf(),
        beta.wf(),
        L.layout.row_stride == 1,
        W.layout.row_stride == 1,
        1 <= W.ncols() <= 4,
        W.ncols() <= p.nrows(),
        W.ncols() <= beta.nrows(),
        W.nrows() == L.nrows(),
    ensures
        L.layout.frame(old(L.data)@, final(L.data)@),
        W.layout.frame(old(W.data)@, final(W.data)@),
        L.layout.col_model(final(L.data)@) == Seq::new(
            L.nrows() as nat,
            |i: int|
                if i < W.nrows() {
                    step_l(true, L@[i], p@, beta@, W@[i], W.ncols() as int)
                } else {
                    L@[i]
                },
        ),
        W.layout.model(final(W.data)@) == Seq::new(
            W.nrows() as nat,
            |i: int| Seq::new(W.ncols() as nat, |c: int| step_w(true, L@[i], p@, beta@, W@[i], c)),
        ),
{
    rank_update_step(L, W, p, beta, true)
}

/// Takes the vectorised step where `fused` says so, the scalar step
/// otherwise.
fn rank_update_step_dispatch<T: ComplexField>(
    L: ColMut<'_, T>,
    W: MatMut<'_, T>,
    p: ColRef<'_, T>,
    beta: ColRef<'_, T>,
    fused: bool,
    align_offset: usize,
)
    requires
        L.wf(),
        W.wf(),
        p.wf(),
        beta.wf(),
        fused ==> L.layout.row_stride == 1 && W.layout.row_stride == 1 && W.nrows() == L.nrows(),
        1 <= W.ncols() <= 4,
        W.ncols() <= p.nrows(),
        W.ncols() <= beta.nrows(),
        W.nrows() <= L.nrows(),
    ensures
        L.layout.frame(old(L.data)@, final(L.data)@),
        W.layout.frame(old(W.data)@, final(W.data)@),
        L.layout.col_model(final(L.data)@) == Seq::new(
            L.nrows() as nat,
            |i: int|
                if i < W.nrows() {
                    step_l(fused, L@[i], p@, beta@, W@[i], W.ncols() as int)
                } else {
                    L@[i]
                },
        ),
        W.layout.model(final(W.data)@) == Seq::new(
            W.nrows() as nat,
            |i: int| Seq::new(W.ncols() as nat, |c: int| step_w(fused, L@[i], p@, beta@, W@[i], c)),
        ),
{
    if fused {
        rank_update_step_simd(L, W, p, beta, align_offset);
    } else {
        rank_update_step_fallback(L, W, p, beta);
    }
}

/// The scalars `p` of a column of the factorization: the row of the
/// perturbation that belongs to the pivot, negated.
pub open spec fn negated<T: ComplexField>(w: Seq<T>) -> Seq<T> {
    Seq::new(w.len(), |c: int| T::neg_spec(w[c]))
}

/// The multipliers of a column of the factorization, one for each column of
/// the perturbation.
pub open spec fn multipliers<T: ComplexField>(d: T, alpha: Seq<T>, w: Seq<T>) -> Seq<T> {
    Seq::new(w.len(), |c: int| multiplier_at(d, alpha, w, c))
}

/// The factorization after its column `j` took the first `r` columns of the
/// perturbation `w` with the scales `alpha`: the pivot `(j, j)` is the last
/// of the new pivots, and the entries of column `j` in the rows below it
/// that the perturbation has are updated row by row.
pub open spec fn column_ld<T: ComplexField>(
    fused: bool,
    ld: Seq<Seq<T>>,
    w: Seq<Seq<T>>,
    alpha: Seq<T>,
    j: int,
    r: int,
) -> Seq<Seq<T>> {
    let d = ld[j][j];
    let p = negated(w[j]);
    let beta = multipliers(d, alpha, w[j]);
    Seq::new(
        ld.len(),
        |i: int|
            Seq::new(
                ld[i].len(),
                |q: int|
                    if q == j && i == j {
                        pivot_after(d, alpha, w[j], r)
                    } else if q == j && j < i < w.len() {
                        step_l(fused, ld[i][j], p, beta, w[i], r)
                    } else {
                        ld[i][q]
                    },
            ),
    )
}

/// The perturbation after column `j` of the factorization took its first
/// `r` columns: the rows below `j` are updated in those columns.
pub open spec fn column_w<T: ComplexField>(
    fused: bool,
    ld: Seq<Seq<T>>,
    w: Seq<Seq<T>>,
    alpha: Seq<T>,
    j: int,
    r: int,
) -> Seq<Seq<T>> {
    let d = ld[j][j];
    let p = negated(w[j]);
    let beta = multipliers(d, alpha, w[j]);
    Seq::new(
        w.len(),
        |i: int|
            Seq::new(
                w[i].len(),
                |c: int|
                    if j < i && c < r {
                        step_w(fused, ld[i][j], p, beta, w[i], c)
                    } else {
                        w[i][c]
                    },
            ),
    )
}

/// The scales after column `j` of the factorization took the first `r`
/// columns of the perturbation: those are deflated.
pub open spec fn column_alpha<T: ComplexField>(
    ld: Seq<Seq<T>>,
    w: Seq<Seq<T>>,
    alpha: Seq<T>,
    j: int,
    r: int,
) -> Seq<T> {
    Seq::new(
        alpha.len(),
        |c: int|
            if c < r {
                deflated_at(ld[j][j], alpha, w[j], c)
            } else {
                alpha[c]
            },
    )
}

/// The number of columns of the perturbation that are active in column `j`:
/// the budget of the column, at most the `k` columns there are.
pub open spec fn active_rank(ranks: Seq<usize>, k: int, j: int) -> int {
    if ranks[j] < k {
        ranks[j] as int
    } else {
        k
    }
}

/// The factorization, the perturbation and the scales after the first `j`
/// columns of the factorization were updated, in order, each with the
/// columns of the perturbation that are active in it.
pub open spec fn update_upto<T: ComplexField>(
    fused: bool,
    ld: Seq<Seq<T>>,
    w: Seq<Seq<T>>,
    alpha: Seq<T>,
    ranks: Seq<usize>,
    k: int,
    j: int,
) -> (Seq<Seq<T>>, Seq<Seq<T>>, Seq<T>)
    decreases j,
{
    if j <= 0 {
        (ld, w, alpha)
    } else {
        let s = update_upto(fused, ld, w, alpha, ranks, k, j - 1);
        let r = active_rank(ranks, k, j - 1);
        (
            column_ld(fused, s.0, s.1, s.2, j - 1, r),
            column_w(fused, s.0, s.1, s.2, j - 1, r),
            column_alpha(s.0, s.1, s.2, j - 1, r),
        )
    }
}

/// An update in which no column of the perturbation is active leaves the
/// factorization, the perturbation and the scales as they are. That is so
/// in particular where the perturbation has no column.
pub proof fn lemma_rank_zero_update<T: ComplexField>(
    fused: bool,
    ld: Seq<Seq<T>>,
    w: Seq<Seq<T>>,
    alpha: Seq<T>,
    ranks: Seq<usize>,
    k: int,
    j: int,
)
    requires
        forall|q: int| 0 <= q < j ==> active_rank(ranks, k, q) == 0,
    ensures
        update_upto(fused, ld, w, alpha, ranks, k, j) == (ld, w, alpha),
    decreases j,
{
    if j > 0 {
        lemma_rank_zero_update(fused, ld, w, alpha, ranks, k, j - 1);
        assert(active_rank(ranks, k, j - 1) == 0);
        assert(column_ld(fused, ld, w, alpha, j - 1, 0) =~~= ld);
        assert(column_w(fused, ld, w, alpha, j - 1, 0) =~~= w);
        assert(column_alpha(ld, w, alpha, j - 1, 0) =~= alpha);
    }
}

/// One block of columns of the perturbation, taken by the rows below the
/// pivot after the columns before it: the state that the first `c0` columns
/// left, with the pivot already advanced, and the rows updated with the
/// scalars of the next `bs` columns, is the state that the first `c0 + bs`
/// columns leave.
pub proof fn lemma_block_done<T: ComplexField>(
    fused: bool,
    ld: Seq<Seq<T>>,
    w: Seq<Seq<T>>,
    alpha: Seq<T>,
    j: int,
    c0: int,
    bs: int,
    k: int,
    ld_m: Seq<Seq<T>>,
    w_m: Seq<Seq<T>>,
    pv: Seq<T>,
    bv: Seq<T>,
    lcol: Seq<T>,
    wsub: Seq<Seq<T>>,
    ld_a: Seq<Seq<T>>,
    w_a: Seq<Seq<T>>,
)
    requires
        0 <= j < w.len() <= ld.len(),
        0 <= c0,
        0 < bs,
        c0 + bs <= k,
        forall|i: int| 0 <= i < w.len() ==> (#[trigger] w[i]).len() == k,
        forall|i: int| 0 <= i < ld.len() ==> j < (#[trigger] ld[i]).len(),
        ld_m.len() == ld.len(),
        forall|i: int| 0 <= i < ld.len() ==> (#[trigger] ld_m[i]).len() == ld[i].len(),
        forall|i: int, q: int|
            0 <= i < ld.len() && 0 <= q < ld[i].len() ==> #[trigger] ld_m[i][q] == (if i == j && q
                == j {
                pivot_after(ld[j][j], alpha, w[j], c0 + bs)
            } else {
                column_ld(fused, ld, w, alpha, j, c0)[i][q]
            }),
        w_m == column_w(fused, ld, w, alpha, j, c0),
        forall|a: int|
            0 <= a < bs ==> pv[a] == negated(w[j])[c0 + a] && bv[a] == multipliers(
                ld[j][j],
                alpha,
                w[j],
            )[c0 + a],
        lcol.len() == ld.len() - j - 1,
        forall|a: int| 0 <= a < lcol.len() ==> lcol[a] == ld_m[j + 1 + a][j],
        wsub.len() == w.len() - j - 1,
        forall|a: int| 0 <= a < wsub.len() ==> (#[trigger] wsub[a]).len() == bs,
        forall|a: int, c: int|
            0 <= a < wsub.len() && 0 <= c < bs ==> #[trigger] wsub[a][c] == w_m[j + 1 + a][c0 + c],
        ld_a == algebra::replace_window(
            ld_m,
            j + 1,
            j,
            algebra::from_column(
                Seq::new(
                    lcol.len(),
                    |a: int|
                        if a < wsub.len() {
                            step_l(fused, lcol[a], pv, bv, wsub[a], bs)
                        } else {
                            lcol[a]
                        },
                ),
            ),
        ),
        w_a == algebra::replace_window(
            w_m,
            j + 1,
            c0,
            Seq::new(
                wsub.len(),
                |a: int| Seq::new(bs as nat, |c: int| step_w(fused, lcol[a], pv, bv, wsub[a], c)),
            ),
        ),
    ensures
        ld_a == column_ld(fused, ld, w, alpha, j, c0 + bs),
        w_a == column_w(fused, ld, w, alpha, j, c0 + bs),
{
    let p = negated(w[j]);
    let beta = multipliers(ld[j][j], alpha, w[j]);
    let goal_ld = column_ld(fused, ld, w, alpha, j, c0 + bs);
    let goal_w = column_w(fused, ld, w, alpha, j, c0 + bs);
    assert forall|i: int, q: int| 0 <= i < ld.len() && 0 <= q < ld[i].len() implies ld_a[i][q] == (
    if q == j && j < i < w.len() {
        step_l(fused, lcol[i - j - 1], pv, bv, wsub[i - j - 1], bs)
    } else {
        ld_m[i][q]
    }) by {
        if q == j && j < i {
            assert(lcol[i - j - 1] == ld_m[j + 1 + (i - j - 1)][j]);
        }
    }
    assert forall|i: int, c: int| 0 <= i < w.len() && 0 <= c < k implies w_a[i][c] == (if j < i
        && c0 <= c < c0 + bs {
        step_w(fused, lcol[i - j - 1], pv, bv, wsub[i - j - 1], c - c0)
    } else {
        w_m[i][c]
    }) by {}
    assert forall|i: int, q: int| 0 <= i < ld.len() && 0 <= q < ld[i].len() implies ld_a[i][q]
        == goal_ld[i][q] by {
        if q == j && j < i < w.len() {
            let a = i - j - 1;
            assert(lcol[a] == ld_m[i][j]);
            assert(ld_m[i][j] == step_l(fused, ld[i][j], p, beta, w[i], c0));
            assert forall|c: int| 0 <= c < bs implies wsub[a][c] == w[i][c0 + c] by {
                assert(wsub[a][c] == w_m[j + 1 + a][c0 + c]);
            }
            lemma_step_shift(fused, ld[i][j], p, beta, w[i], c0, pv, bv, wsub[a], bs);
        }
    }
    assert(ld_a =~~= goal_ld);
    assert forall|i: int, c: int| 0 <= i < w.len() && 0 <= c < k implies w_a[i][c]
        == goal_w[i][c] by {
        if j < i && c0 <= c < c0 + bs {
            let a = i - j - 1;
            assert(lcol[a] == ld_m[i][j]);
            assert(ld_m[i][j] == step_l(fused, ld[i][j], p, beta, w[i], c0));
            assert forall|b: int| 0 <= b < bs implies wsub[a][b] == w[i][c0 + b] by {
                assert(wsub[a][b] == w_m[j + 1 + a][c0 + b]);
            }
            lemma_step_shift(fused, ld[i][j], p, beta, w[i], c0, pv, bv, wsub[a], c - c0);
        }
    }
    assert(w_a =~~= goal_w);
}

/// The operands of a rank-r update: the factorization `ld`, the
/// perturbation `w`, its scales `alpha`, and for each column of the
/// factorization the budget `r` of columns of the perturbation that may be
/// active in it.
pub struct RankRUpdate<'a, T> {
    /// The factorization: `L` below the diagonal, `D` on it.
    pub ld: MatMut<'a, T>,
    /// The perturbation, one column for each rank.
    pub w: MatMut<'a, T>,
    /// The scale of each column of the perturbation.
    pub alpha: ColMut<'a, T>,
    /// The budget of active columns, for each column of the factorization.
    pub r: &'a [usize],
}

impl<'a, T: ComplexField> RankRUpdate<'a, T> {
    /// The operands fit together: the factorization has a row and a column
    /// for each row of the perturbation, and no other row where the
    /// vectorised step is taken; there is a budget for each of them, and a
    /// scale for each column that is ever active.
    pub open spec fn wf(&self) -> bool {
        &&& self.ld.wf()
        &&& self.w.wf()
        &&& self.alpha.wf()
        &&& self.w.nrows() <= self.ld.nrows()
        &&& self.w.nrows() <= self.ld.ncols()
        &&& (uses_fused_kernel::<T>(self.ld.layout, self.w.layout) && exists|j: int|
            0 <= j < self.w.nrows() && #[trigger] active_rank(self.r@, self.w.ncols() as int, j)
                > 0) ==> self.w.nrows() == self.ld.nrows()
        &&& self.r@.len() == self.w.nrows()
        &&& forall|j: int|
            0 <= j < self.w.nrows() ==> #[trigger] active_rank(self.r@, self.w.ncols() as int, j)
                <= self.alpha.nrows()
    }

    /// Updates the columns of the factorization in order, each with the
    /// columns of the perturbation that are active in it, four at a time.
    pub fn run(self)
        requires
            self.wf(),
        ensures
            self.ld.layout.frame(old(self.ld.data)@, final(self.ld.data)@),
            self.w.layout.frame(old(self.w.data)@, final(self.w.data)@),
            self.alpha.layout.frame(old(self.alpha.data)@, final(self.alpha.data)@),
            (
                self.ld.layout.model(final(self.ld.data)@),
                self.w.layout.model(final(self.w.data)@),
                self.alpha.layout.col_model(final(self.alpha.data)@),
            ) == update_upto(
                uses_fused_kernel::<T>(self.ld.layout, self.w.layout),
                self.ld@,
                self.w@,
                self.alpha@,
                self.r@,
                self.w.ncols() as int,
                self.w.nrows() as int,
            ),
    {
        let ghost ld0 = self.ld@;
        let ghost w0 = self.w@;
        let ghost a0 = self.alpha@;
        let ghost lddata0 = self.ld.data@;
        let ghost wdata0 = self.w.data@;
        let ghost adata0 = self.alpha.data@;
        let ghost ldfin = final(self.ld.data)@;
        let ghost wfin = final(self.w.data)@;
        let ghost afin = final(self.alpha.data)@;
        let ghost ldlay = self.ld.layout;
        let ghost wlay = self.w.layout;
        let ghost alay = self.alpha.layout;
        let ghost budgets = self.r@;
        proof {
            assert forall|q: int| 0 <= q < wlay.nrows implies #[trigger] active_rank(
                budgets,
                wlay.ncols as int,
                q,
            ) <= alay.nrows by {
                assert(active_rank(self.r@, self.w.ncols() as int, q) <= self.alpha.nrows());
            }
        }
        let mut ld = self.ld;
        let mut w = self.w;
        let mut alpha = self.alpha;
        let ranks = self.r;
        let n = w.nrows();
        let k = w.ncols();
        let ldn = ld.nrows();
        let fused = T::simd_capable() && ld.row_stride() == 1 && w.row_stride() == 1;
        let ghost some_active = exists|q: int|
            0 <= q < n && #[trigger] active_rank(ranks@, k as int, q) > 0;
        proof {
            assert(ranks@ == budgets);
        }
        let mut p_buf: Vec<T> = Vec::new();
        let mut beta_buf: Vec<T> = Vec::new();
        let mut t: usize = 0;
        while t < 4
            invariant
                t <= 4,
                p_buf@.len() == t,
                beta_buf@.len() == t,
            decreases 4 - t,
        {
            p_buf.push(T::zero_impl());
            beta_buf.push(T::zero_impl());
            t += 1;
        }
        proof {
            assert(ldlay.frame(lddata0, lddata0));
            assert(wlay.frame(wdata0, wdata0));
            assert(alay.frame(adata0, adata0));
        }
        let mut j: usize = 0;
        while j < n
            invariant
                j <= n,
                n == wlay.nrows,
                k == wlay.ncols,
                ldn == ldlay.nrows,
                fused ==> ldlay.row_stride == 1 && wlay.row_stride == 1,
                fused && some_active ==> n == ldn,
                some_active == (exists|q: int|
                    0 <= q < n && #[trigger] active_rank(ranks@, k as int, q) > 0),
                n <= ldlay.nrows,
                n <= ldlay.ncols,
                ranks@.len() == n,
                forall|q: int| 0 <= q < n ==> #[trigger] active_rank(ranks@, k as int, q) <= alay.nrows,
                p_buf@.len() == 4,
                beta_buf@.len() == 4,
                ld.wf(),
                w.wf(),
                alpha.wf(),
                ld.layout == ldlay,
                w.layout == wlay,
                alpha.layout == alay,
                ldlay.frame(lddata0, ld.data@),
                wlay.frame(wdata0, w.data@),
                alay.frame(adata0, alpha.data@),
                final(ld.data)@ == ldfin,
                final(w.data)@ == wfin,
                final(alpha.data)@ == afin,
                (ld@, w@, alpha@) == update_upto(fused, ld0, w0, a0, ranks@, k as int, j as int),
            decreases n - j,
        {
            let budget = ranks[j];
            let rank: usize = if budget < k {
                budget
            } else {
                k
            };
            let ghost s0 = ld@;
            let ghost s1 = w@;
            let ghost s2 = alpha@;
            proof {
                assert(rank == active_rank(ranks@, k as int, j as int));
                assert(rank > 0 ==> some_active);
                assert(column_ld(fused, s0, s1, s2, j as int, 0) =~~= s0);
                assert(column_w(fused, s0, s1, s2, j as int, 0) =~~= s1);
                assert(column_alpha(s0, s1, s2, j as int, 0) =~= s2);
            }
            let mut c0: usize = 0;
            while c0 < rank
                invariant
                    c0 <= rank <= k,
                    rank <= alay.nrows,
                    j < n,
                    n == wlay.nrows,
                    k == wlay.ncols,
                    ldn == ldlay.nrows,
                    fused ==> ldlay.row_stride == 1 && wlay.row_stride == 1,
                    fused && rank > 0 ==> n == ldn,
                    n <= ldlay.nrows,
                    n <= ldlay.ncols,
                    p_buf@.len() == 4,
                    beta_buf@.len() == 4,
                    ld.wf(),
                    w.wf(),
                    alpha.wf(),
                    ld.layout == ldlay,
                    w.layout == wlay,
                    alpha.layout == alay,
                    ldlay.frame(lddata0, ld.data@),
                    wlay.frame(wdata0, w.data@),
                    alay.frame(adata0, alpha.data@),
                    final(ld.data)@ == ldfin,
                    final(w.data)@ == wfin,
                    final(alpha.data)@ == afin,
                    algebra::is_matrix(s0, ldlay.nrows as nat, ldlay.ncols as nat),
                    algebra::is_matrix(s1, n as nat, k as nat),
                    s2.len() == alay.nrows,
                    ld@ == column_ld(fused, s0, s1, s2, j as int, c0 as int),
                    w@ == column_w(fused, s0, s1, s2, j as int, c0 as int),
                    alpha@ == column_alpha(s0, s1, s2, j as int, c0 as int),
                decreases rank - c0,
            {
                let bs: usize = if rank - c0 < 4 {
                    rank - c0
                } else {
                    4
                };
                let mut kk: usize = 0;
                while kk < bs
                    invariant
                        kk <= bs <= 4,
                        c0 + bs <= rank <= k,
                        rank <= alay.nrows,
                        j < n,
                        n == wlay.nrows,
                        k == wlay.ncols,
                        n <= ldlay.nrows,
                        n <= ldlay.ncols,
                        p_buf@.len() == 4,
                        beta_buf@.len() == 4,
                        ld.wf(),
                        w.wf(),
                        alpha.wf(),
                        ld.layout == ldlay,
                        w.layout == wlay,
                        alpha.layout == alay,
                        ldlay.frame(lddata0, ld.data@),
                        alay.frame(adata0, alpha.data@),
                        final(ld.data)@ == ldfin,
                        final(alpha.data)@ == afin,
                        algebra::is_matrix(s0, ldlay.nrows as nat, ldlay.ncols as nat),
                        algebra::is_matrix(s1, n as nat, k as nat),
                        s2.len() == alay.nrows,
                        w@ == column_w(fused, s0, s1, s2, j as int, c0 as int),
                        forall|i: int, q: int|
                            0 <= i < ldlay.nrows && 0 <= q < ldlay.ncols ==> #[trigger] ld@[i][q]
                                == (if i == j && q == j {
                                pivot_after(s0[j as int][j as int], s2, s1[j as int], c0 + kk)
                            } else {
                                column_ld(fused, s0, s1, s2, j as int, c0 as int)[i][q]
                            }),
                        forall|c: int|
                            0 <= c < alay.nrows ==> #[trigger] alpha@[c] == (if c < c0 + kk {
                                deflated_at(s0[j as int][j as int], s2, s1[j as int], c)
                            } else {
                                s2[c]
                            }),
                        forall|a: int|
                            0 <= a < kk ==> #[trigger] p_buf@[a] == negated(s1[j as int])[c0 + a],
                        forall|a: int|
                            0 <= a < kk ==> #[trigger] beta_buf@[a] == multipliers(
                                s0[j as int][j as int],
                                s2,
                                s1[j as int],
                            )[c0 + a],
                    decreases bs - kk,
                {
                    let col: usize = c0 + kk;
                    let p = w.read(j, col);
                    let a = alpha.read(col);
                    let d = ld.read(j, j);
                    let alpha_conj_p = T::mul_impl(a, T::conj_impl(p));
                    let new_d = T::Real::add_impl(
                        T::real_part_impl(d),
                        T::real_part_impl(T::mul_impl(alpha_conj_p, p)),
                    );
                    let beta = T::mul_real_impl(alpha_conj_p, T::Real::recip_impl(new_d));
                    alpha.write(
                        col,
                        T::from_real_impl(
                            T::Real::sub_impl(
                                T::real_part_impl(a),
                                T::Real::mul_impl(new_d, T::abs2_impl(beta)),
                            ),
                        ),
                    );
                    ld.write(j, j, T::from_real_impl(new_d));
                    p_buf[kk] = T::neg_impl(p);
                    beta_buf[kk] = beta;
                    kk += 1;
                }
                let ghost ld_m = ld@;
                let ghost w_m = w@;
                let ghost lddata = ld.data@;
                let ghost wdata = w.data@;
                let lcol = ld.rb_mut().col_mut(j);
                let ghost col_lay = lcol.layout;
                let lsub = lcol.subrows_mut(j + 1, ldn - j - 1);
                let ghost lsub_lay = lsub.layout;
                let ghost lcol_seq = lsub@;
                let wsub = w.rb_mut().submatrix_mut(j + 1, c0, n - j - 1, bs);
                let ghost wsub_lay = wsub.layout;
                let ghost wsub_seq = wsub@;
                let pv = ColRef::from_slice(p_buf.as_slice());
                let bv = ColRef::from_slice(beta_buf.as_slice());
                rank_update_step_dispatch(lsub, wsub, pv, bv, fused, j + 1);
                proof {
                    ldlay.lemma_window_compose(col_lay, lsub_lay, 0, j as int, j + 1, 0);
                    ldlay.lemma_window_frame(lsub_lay, j + 1, j as int, lddata, ld.data@);
                    lsub_lay.lemma_col_model(ld.data@);
                    wlay.lemma_window_frame(wsub_lay, j + 1, c0 as int, wdata, w.data@);
                    assert(lsub_lay.col_model(ld.data@) =~= Seq::new(
                        lcol_seq.len(),
                        |a: int|
                            if a < wsub_seq.len() {
                                step_l(fused, lcol_seq[a], pv@, bv@, wsub_seq[a], bs as int)
                            } else {
                                lcol_seq[a]
                            },
                    ));
                    assert(wsub_lay.model(w.data@) =~~= Seq::new(
                        wsub_seq.len(),
                        |a: int|
                            Seq::new(
                                bs as nat,
                                |c: int| step_w(fused, lcol_seq[a], pv@, bv@, wsub_seq[a], c),
                            ),
                    ));
                    lemma_block_done(
                        fused,
                        s0,
                        s1,
                        s2,
                        j as int,
                        c0 as int,
                        bs as int,
                        k as int,
                        ld_m,
                        w_m,
                        pv@,
                        bv@,
                        lcol_seq,
                        wsub_seq,
                        ld@,
                        w@,
                    );
                    assert(alpha@ =~= column_alpha(s0, s1, s2, j as int, c0 + bs));
                }
                c0 += bs;
            }
            j += 1;
        }
    }
}

/// Updates in place the factorization in `cholesky_factors` of a matrix `A`
/// to the factorization of `A + w diag(alpha) wᴴ`. On return `w` and
/// `alpha` hold intermediate quantities. Nothing is done where the
/// factorization has no row.
pub fn rank_r_update_clobber<T: ComplexField>(
    cholesky_factors: MatMut<'_, T>,
    w: MatMut<'_, T>,
    alpha: DiagMut<'_, T>,
)
    requires
        cholesky_factors.wf(),
        w.wf(),
        alpha.wf(),
        cholesky_factors.nrows() > 0 ==> {
            &&& w.nrows() <= cholesky_factors.nrows()
            &&& w.nrows() <= cholesky_factors.ncols()
            &&& (w.nrows() > 0 ==> w.ncols() <= alpha.inner.nrows())
            &&& (uses_fused_kernel::<T>(cholesky_factors.layout, w.layout) && w.nrows() > 0
                && w.ncols() > 0 ==> w.nrows() == cholesky_factors.nrows())
        },
    ensures
        cholesky_factors.layout.frame(
            old(cholesky_factors.data)@,
            final(cholesky_factors.data)@,
        ),
        w.layout.frame(old(w.data)@, final(w.data)@),
        alpha.inner.layout.frame(old(alpha.inner.data)@, final(alpha.inner.data)@),
        cholesky_factors.nrows() == 0 ==> {
            &&& cholesky_factors.layout.model(final(cholesky_factors.data)@) == cholesky_factors@
            &&& w.layout.model(final(w.data)@) == w@
            &&& alpha.inner.layout.col_model(final(alpha.inner.data)@) == alpha@
        },
        cholesky_factors.nrows() > 0 ==> (
            cholesky_factors.layout.model(final(cholesky_factors.data)@),
            w.layout.model(final(w.data)@),
            alpha.inner.layout.col_model(final(alpha.inner.data)@),
        ) == update_upto(
            uses_fused_kernel::<T>(cholesky_factors.layout, w.layout),
            cholesky_factors@,
            w@,
            alpha@,
            Seq::new(w.nrows() as nat, |j: int| w.ncols()),
            w.ncols() as int,
            w.nrows() as int,
        ),
        w.ncols() == 0 ==> cholesky_factors.layout.model(final(cholesky_factors.data)@)
            == cholesky_factors@,
{
    let n = cholesky_factors.nrows();
    let r = w.ncols();
    proof {
        assert(cholesky_factors.layout.frame(cholesky_factors.data@, cholesky_factors.data@));
        assert(w.layout.frame(w.data@, w.data@));
        assert(alpha.inner.layout.frame(alpha.inner.data@, alpha.inner.data@));
    }
    if n == 0 {
        return ;
    }
    let rows = w.nrows();
    let mut ranks: Vec<usize> = Vec::new();
    let mut j: usize = 0;
    while j < rows
        invariant
            j <= rows,
            ranks@.len() == j,
            forall|q: int| 0 <= q < j ==> ranks@[q] == r,
        decreases rows - j,
    {
        ranks.push(r);
        j += 1;
    }
    proof {
        assert(ranks@ =~= Seq::new(rows as nat, |j: int| r));
        if r == 0 {
            lemma_rank_zero_update(
                uses_fused_kernel::<T>(cholesky_factors.layout, w.layout),
                cholesky_factors@,
                w@,
                alpha@,
                ranks@,
                r as int,
                rows as int,
            );
        }
        assert forall|j: int| 0 <= j < rows implies #[trigger] active_rank(ranks@, r as int, j)
            <= alpha.inner.nrows() by {}
    }
    RankRUpdate { ld: cholesky_factors, w, alpha: alpha.column_vector_mut(), r: ranks.as_slice() }.run();
}

} // verus!
