//! Block Householder transformations.
//!
//! A Householder reflection is the transformation `I - v vᴴ / tau` for a
//! vector `v` and a real scale `tau`. A block Householder transformation is
//! the product `H_0 H_1 ... H_{b-1}` of `b` reflections whose vectors form a
//! lower trapezoidal matrix `V` with unit diagonal, the Householder basis.
//! With the upper triangular Householder factor `T` of the block, the
//! product is `I - V T⁻¹ Vᴴ`. A block Householder sequence is the
//! concatenation of such blocks: the bases side by side, and the factors side
//! by side.
//!
//! The contracts of this module say exactly which products, solves and sums
//! an application performs, in the terms of the kernels it calls.
use crate::algebra;
use crate::col::colmut::ColMut;
use crate::layout::MatLayout;
use crate::linalg::reductions;
use crate::linalg::matmul::triangular::BlockStructure;
use crate::linalg::matmul::{self, triangular};
use crate::linalg::temp_mat::{temp_mat_scratch, temp_mat_uninit, SizeOverflow, StackReq};
use crate::linalg::triangular_solve as solve;
use crate::mat::matmut::MatMut;
use crate::mat::matref::MatRef;
use crate::par::Par;
use crate::scalar::{apply_conj, Accum, ComplexField, Conj, RealField};
use vstd::prelude::*;

verus! {

/// The head of a vector as the reflector construction takes it: a head whose
/// modulus is below the smallest positive value counts as zero.
pub open spec fn clamped_head<T: ComplexField>(head: T) -> T {
    if T::Real::lt_spec(T::abs_spec(head), T::Real::min_positive_spec()) {
        T::zero_spec()
    } else {
        head
    }
}

/// The modulus of the head as the reflector construction takes it.
pub open spec fn clamped_head_norm<T: ComplexField>(head: T) -> T::Real {
    if T::Real::lt_spec(T::abs_spec(head), T::Real::min_positive_spec()) {
        T::Real::zero_spec()
    } else {
        T::abs_spec(head)
    }
}

/// Whether the tail of a vector is too small for a reflection: its norm is
/// below the smallest positive value.
pub open spec fn is_degenerate<T: ComplexField>(tail: Seq<T>) -> bool {
    T::Real::lt_spec(reductions::norm_l2_spec(tail), T::Real::min_positive_spec())
}

/// The norm of the vector `[head; tail]` times the unit factor in the
/// direction of the head, or times one where the head counts as zero.
pub open spec fn signed_norm<T: ComplexField>(head: T, tail: Seq<T>) -> T {
    let head_norm = clamped_head_norm(head);
    let sign = if !T::Real::eq_spec(head_norm, T::Real::zero_spec()) {
        T::mul_real_spec(clamped_head(head), T::Real::recip_spec(head_norm))
    } else {
        T::one_spec()
    };
    T::mul_spec(
        sign,
        T::from_real_spec(T::Real::hypot_spec(head_norm, reductions::norm_l2_spec(tail))),
    )
}

/// The reciprocal of the normaliser `head + signed_norm`, by which the tail
/// is multiplied to give the essential part of the reflector.
pub open spec fn normalizer_inv<T: ComplexField>(head: T, tail: Seq<T>) -> T {
    T::recip_spec(T::add_spec(clamped_head(head), signed_norm(head, tail)))
}

/// The scale `tau` of the reflector: one half of one plus the square of the
/// norm of the tail times the modulus of the reciprocal of the normaliser.
pub open spec fn tau_spec<T: ComplexField>(head: T, tail: Seq<T>) -> T {
    let scaled = T::Real::mul_spec(
        reductions::norm_l2_spec(tail),
        T::abs_spec(normalizer_inv(head, tail)),
    );
    T::from_real_spec(
        T::Real::mul_spec(
            T::Real::one_half_spec(),
            T::Real::add_spec(T::Real::one_spec(), T::Real::mul_spec(scaled, scaled)),
        ),
    )
}

/// The essential part of the reflector: every entry of the tail times the
/// reciprocal of the normaliser.
pub open spec fn essential_spec<T: ComplexField>(head: T, tail: Seq<T>) -> Seq<T> {
    Seq::new(tail.len(), |i: int| T::mul_spec(tail[i], normalizer_inv(head, tail)))
}

/// Computes the Householder reflection `I - v vᴴ / tau` that sends the
/// vector `x = [head; tail]` to a multiple of the first unit vector. The
/// reflection vector is `v = [1; essential]`; the essential part overwrites
/// `tail` and the multiple overwrites `head`. Returns `tau` and the
/// reciprocal of the normaliser.
///
/// Where the norm of the tail is below the smallest positive value there is
/// nothing to reflect: the tail is left as it is, and the result is the
/// infinite scale with no reciprocal, which stands for the identity.
pub fn make_householder_in_place<T: ComplexField>(head: &mut T, tail: ColMut<'_, T>) -> (r: (
    T,
    Option<T>,
))
    requires
        tail.wf(),
    ensures
        tail.layout.frame(old(tail.data)@, final(tail.data)@),
        is_degenerate(tail@) ==> {
            &&& r == (T::infinity_spec(), None::<T>)
            &&& *final(head) == clamped_head(*old(head))
            &&& tail.layout.col_model(final(tail.data)@) == tail@
        },
        !is_degenerate(tail@) ==> {
            &&& r == (tau_spec(*old(head), tail@), Some(normalizer_inv(*old(head), tail@)))
            &&& *final(head) == T::neg_spec(signed_norm(*old(head), tail@))
            &&& tail.layout.col_model(final(tail.data)@) == essential_spec(*old(head), tail@)
        },
{
    let ghost t0 = tail@;
    let ghost data0 = tail.data@;
    let ghost fin = final(tail.data)@;
    let ghost lay = tail.layout;
    let ghost h0 = *head;
    let mut tail = tail;
    proof {
        assert(lay.frame(data0, data0));
    }
    let tail_norm = reductions::norm_l2(tail.rb());
    let mut head_norm = T::abs_impl(*head);
    if T::Real::lt_impl(head_norm, T::Real::min_positive_impl()) {
        *head = T::zero_impl();
        head_norm = T::Real::zero_impl();
    }
    if T::Real::lt_impl(tail_norm, T::Real::min_positive_impl()) {
        return (T::infinity_impl(), None);
    }
    let one_half = T::Real::one_half_impl();
    let norm = T::Real::hypot_impl(head_norm, tail_norm);
    let sign = if !T::Real::eq_impl(head_norm, T::Real::zero_impl()) {
        T::mul_real_impl(*head, T::Real::recip_impl(head_norm))
    } else {
        T::one_impl()
    };
    let signed = T::mul_impl(sign, T::from_real_impl(norm));
    let head_with_beta = T::add_impl(*head, signed);
    let head_with_beta_inv = T::recip_impl(head_with_beta);

    let n = tail.nrows();
    let mut i: usize = 0;
    while i < n
        invariant
            i <= n,
            n == lay.nrows,
            tail.wf(),
            tail.layout == lay,
            lay.frame(data0, tail.data@),
            final(tail.data)@ == fin,
            t0 == lay.col_model(data0),
            head_with_beta_inv == normalizer_inv(h0, t0),
            forall|a: int|
                0 <= a < n ==> #[trigger] tail@[a] == (if a < i {
                    T::mul_spec(t0[a], head_with_beta_inv)
                } else {
                    t0[a]
                }),
        decreases n - i,
    {
        let e = tail.read(i);
        tail.write(i, T::mul_impl(e, head_with_beta_inv));
        i += 1;
    }
    *head = T::neg_impl(signed);
    let scaled = T::Real::mul_impl(tail_norm, T::abs_impl(head_with_beta_inv));
    let tau = T::Real::mul_impl(
        one_half,
        T::Real::add_impl(T::Real::one_impl(), T::Real::mul_impl(scaled, scaled)),
    );
    proof {
        assert(tail@ =~= essential_spec(h0, t0));
    }
    (T::from_real_impl(tau), Some(head_with_beta_inv))
}

/// What the general path of a block application leaves in `matrix`: with
/// `V` the basis, `n` its number of columns and `A` the operand of `k`
/// columns,
///
/// 1. `tmp = op(V)ᴴ A`, accumulated in two parts: the unit triangular top of
///    the basis times the top `n` rows of `A`, then the rest of the basis
///    times the rest of `A` added to it;
/// 2. `tmp` is replaced by the solution of the triangular system with the
///    factor: lower triangular with the adjoint of the factor when `forward`
///    holds, upper triangular with the factor itself otherwise;
/// 3. `op(V) tmp` is subtracted from `A`, again in two parts.
pub open spec fn block_apply_spec<T: ComplexField>(
    basis: Seq<Seq<T>>,
    factor: Seq<Seq<T>>,
    conj_lhs: Conj,
    matrix: Seq<Seq<T>>,
    forward: bool,
    n: nat,
    k: nat,
) -> Seq<Seq<T>> {
    let m = matrix.len();
    let rest = (m - n) as nat;
    let v_top = algebra::window(basis, 0, 0, n, n);
    let v_bot = algebra::window(basis, n as int, 0, rest, n);
    let a_top = algebra::window(matrix, 0, 0, n, k);
    let a_bot = algebra::window(matrix, n as int, 0, rest, k);
    let adj = Conj::Yes.compose_spec(conj_lhs);
    let t1 = triangular::matmul_spec(
        a_top,
        BlockStructure::Rectangular,
        Accum::Replace,
        algebra::transpose(v_top, n),
        BlockStructure::UnitTriangularUpper,
        adj,
        a_top,
        BlockStructure::Rectangular,
        Conj::No,
        T::one_spec(),
    );
    let t2 = matmul::matmul_spec(
        t1,
        Accum::Add,
        algebra::transpose(v_bot, n),
        adj,
        a_bot,
        Conj::No,
        T::one_spec(),
    );
    let t3 = if forward {
        solve::solve_lower_spec(algebra::transpose(factor, n), adj, t2)
    } else {
        solve::solve_upper_spec(factor, conj_lhs, t2)
    };
    let top = triangular::matmul_spec(
        a_top,
        BlockStructure::Rectangular,
        Accum::Add,
        v_top,
        BlockStructure::UnitTriangularLower,
        conj_lhs,
        t3,
        BlockStructure::Rectangular,
        Conj::No,
        T::neg_spec(T::one_spec()),
    );
    let bot = matmul::matmul_spec(
        a_bot,
        Accum::Add,
        v_bot,
        conj_lhs,
        t3,
        Conj::No,
        T::neg_spec(T::one_spec()),
    );
    top + bot
}

/// The reciprocal of the scale of a single reflection, read off the real
/// part of its one-by-one factor.
pub open spec fn tau_inv_spec<T: ComplexField>(factor: Seq<Seq<T>>) -> T {
    T::from_real_spec(T::Real::recip_spec(T::real_part_spec(factor[0][0])))
}

/// The sum of the first `n` products `a[k] * b[k]`, the first operand read
/// through its conjugation flag, accumulated from `k = 0` upwards by fused
/// multiply-adds starting at zero.
pub open spec fn fused_inner_prod<T: ComplexField>(conj_a: Conj, a: Seq<T>, b: Seq<T>, n: int) -> T
    decreases n,
{
    if n <= 0 {
        T::zero_spec()
    } else {
        T::mul_add_spec(
            crate::scalar::conj_if(conj_a, a[n - 1]),
            b[n - 1],
            fused_inner_prod(conj_a, a, b, n - 1),
        )
    }
}

/// The multiple of the reflection vector that the rank-one kernel adds to
/// column `j` of `matrix`: minus the inner product of the vector with the
/// column, times the reciprocal of the scale. The inner product is the head
/// of the column plus the products of the essential part with the tail of
/// the column, accumulated by fused multiply-adds.
pub open spec fn rank_one_scale<T: ComplexField>(
    basis: Seq<Seq<T>>,
    factor: Seq<Seq<T>>,
    conj_lhs: Conj,
    matrix: Seq<Seq<T>>,
    j: int,
) -> T {
    let tail_len = (matrix.len() - 1) as nat;
    let essential = Seq::new(tail_len, |r: int| basis[r + 1][0]);
    let tail = Seq::new(tail_len, |r: int| matrix[r + 1][j]);
    let dot = T::add_spec(
        matrix[0][j],
        fused_inner_prod(Conj::Yes.compose_spec(conj_lhs), essential, tail, tail_len as int),
    );
    T::mul_spec(T::neg_spec(dot), tau_inv_spec(factor))
}

/// What the rank-one kernel leaves in `matrix`: the block of a single
/// reflection applied column by column without a temporary. The multiple of
/// the reflection vector is added to the head of the column, and to the
/// rows below it by fused multiply-adds. In an operand of a single row the
/// head is all there is: it becomes `x - x / tau`.
pub open spec fn rank_one_apply_spec<T: ComplexField>(
    basis: Seq<Seq<T>>,
    factor: Seq<Seq<T>>,
    conj_lhs: Conj,
    matrix: Seq<Seq<T>>,
    k: nat,
) -> Seq<Seq<T>> {
    Seq::new(
        matrix.len(),
        |i: int|
            Seq::new(
                k,
                |j: int|
                    if i == 0 {
                        T::add_spec(
                            matrix[0][j],
                            rank_one_scale(basis, factor, conj_lhs, matrix, j),
                        )
                    } else {
                        T::mul_add_spec(
                            crate::scalar::conj_if(conj_lhs, basis[i][0]),
                            rank_one_scale(basis, factor, conj_lhs, matrix, j),
                            matrix[i][j],
                        )
                    },
            ),
    )
}

/// Whether a block application takes the rank-one kernel: the block is a
/// single reflection, the rows of the basis and of the operand are
/// contiguous, and the element type allows vectorised kernels.
pub open spec fn uses_rank_one_kernel<T: ComplexField>(basis: MatLayout, matrix: MatLayout) -> bool {
    &&& basis.ncols == 1
    &&& basis.row_stride == 1
    &&& matrix.row_stride == 1
    &&& T::simd_capable_spec()
}

/// What applying one block from the left leaves in `matrix`.
pub open spec fn apply_on_the_left_spec<T: ComplexField>(
    basis: Seq<Seq<T>>,
    factor: Seq<Seq<T>>,
    conj_lhs: Conj,
    matrix: Seq<Seq<T>>,
    forward: bool,
    n: nat,
    k: nat,
    rank_one: bool,
) -> Seq<Seq<T>> {
    if rank_one {
        rank_one_apply_spec(basis, factor, conj_lhs, matrix, k)
    } else {
        block_apply_spec(basis, factor, conj_lhs, matrix, forward, n, k)
    }
}

/// A product that replaces a rectangular destination does not read it.
pub proof fn lemma_replace_ignores_dst<T: ComplexField>(
    d1: Seq<Seq<T>>,
    d2: Seq<Seq<T>>,
    nrows: nat,
    ncols: nat,
    lhs: Seq<Seq<T>>,
    lhs_structure: BlockStructure,
    conj_lhs: Conj,
    rhs: Seq<Seq<T>>,
    rhs_structure: BlockStructure,
    conj_rhs: Conj,
    alpha: T,
)
    requires
        algebra::is_matrix(d1, nrows, ncols),
        algebra::is_matrix(d2, nrows, ncols),
    ensures
        triangular::matmul_spec(
            d1,
            BlockStructure::Rectangular,
            Accum::Replace,
            lhs,
            lhs_structure,
            conj_lhs,
            rhs,
            rhs_structure,
            conj_rhs,
            alpha,
        ) == triangular::matmul_spec(
            d2,
            BlockStructure::Rectangular,
            Accum::Replace,
            lhs,
            lhs_structure,
            conj_lhs,
            rhs,
            rhs_structure,
            conj_rhs,
            alpha,
        ),
{
    assert(triangular::matmul_spec(
        d1,
        BlockStructure::Rectangular,
        Accum::Replace,
        lhs,
        lhs_structure,
        conj_lhs,
        rhs,
        rhs_structure,
        conj_rhs,
        alpha,
    ) =~~= triangular::matmul_spec(
        d2,
        BlockStructure::Rectangular,
        Accum::Replace,
        lhs,
        lhs_structure,
        conj_lhs,
        rhs,
        rhs_structure,
        conj_rhs,
        alpha,
    ));
}

/// Applies the single reflection of `householder_basis` to `matrix` column
/// by column, without a temporary.
fn apply_rank_one_on_the_left<T: ComplexField>(
    householder_basis: MatRef<'_, T>,
    householder_factor: MatRef<'_, T>,
    conj_lhs: Conj,
    matrix: MatMut<'_, T>,
)
    requires
        householder_basis.wf(),
        householder_factor.wf(),
        matrix.wf(),
        householder_factor.nrows() == 1,
        householder_factor.ncols() == 1,
        householder_basis.ncols() == 1,
        householder_basis.nrows() >= 1,
        matrix.nrows() == householder_basis.nrows(),
    ensures
        matrix.layout.frame(old(matrix.data)@, final(matrix.data)@),
        matrix.layout.model(final(matrix.data)@) == rank_one_apply_spec(
            householder_basis@,
            householder_factor@,
            conj_lhs,
            matrix@,
            matrix.ncols() as nat,
        ),
{
    let ghost a0 = matrix@;
    let ghost data0 = matrix.data@;
    let ghost fin = final(matrix.data)@;
    let ghost lay = matrix.layout;
    let ghost basis = householder_basis@;
    let ghost factor = householder_factor@;
    let ghost goal = rank_one_apply_spec(basis, factor, conj_lhs, a0, lay.ncols as nat);
    let mut matrix = matrix;
    let m = matrix.nrows();
    let ncols = matrix.ncols();
    proof {
        assert(lay.frame(data0, data0));
    }
    let tail_len: usize = m - 1;
    let tau_inv: T = T::from_real_impl(
        T::Real::recip_impl(T::real_part_impl(householder_factor.read(0, 0))),
    );
    let adj = Conj::Yes.compose(conj_lhs);
    let mut j: usize = 0;
    while j < ncols
        invariant
            j <= ncols,
            m == lay.nrows,
            ncols == lay.ncols,
            m >= 1,
            tail_len == m - 1,
            householder_basis.wf(),
            householder_basis.nrows() == m,
            householder_basis.ncols() == 1,
            basis == householder_basis@,
            tau_inv == tau_inv_spec(factor),
            adj == Conj::Yes.compose_spec(conj_lhs),
            matrix.wf(),
            matrix.layout == lay,
            lay.frame(data0, matrix.data@),
            final(matrix.data)@ == fin,
            a0 == lay.model(data0),
            goal == rank_one_apply_spec(basis, factor, conj_lhs, a0, lay.ncols as nat),
            forall|a: int, b: int|
                0 <= a < m && 0 <= b < ncols ==> #[trigger] matrix@[a][b] == (if b < j {
                    goal[a][b]
                } else {
                    a0[a][b]
                }),
        decreases ncols - j,
    {
        let ghost essential = Seq::new(tail_len as nat, |r: int| basis[r + 1][0]);
        let ghost tail = Seq::new(tail_len as nat, |r: int| a0[r + 1][j as int]);
        let col0 = matrix.read(0, j);
        let mut acc = T::zero_impl();
        let mut r: usize = 0;
        while r < tail_len
            invariant
                r <= tail_len,
                j < ncols,
                m == lay.nrows,
                ncols == lay.ncols,
                tail_len == m - 1,
                householder_basis.wf(),
                householder_basis.nrows() == m,
                householder_basis.ncols() == 1,
                basis == householder_basis@,
                matrix.wf(),
                matrix.layout == lay,
                essential == Seq::new(tail_len as nat, |r: int| basis[r + 1][0]),
                tail == Seq::new(tail_len as nat, |r: int| a0[r + 1][j as int]),
                forall|a: int| 0 <= a < m ==> #[trigger] matrix@[a][j as int] == a0[a][j as int],
                acc == fused_inner_prod(adj, essential, tail, r as int),
            decreases tail_len - r,
        {
            let e = apply_conj(adj, householder_basis.read(r + 1, 0));
            let x = matrix.read(r + 1, j);
            acc = T::mul_add_impl(e, x, acc);
            r += 1;
        }
        let dot = T::add_impl(col0, acc);
        let scale = T::mul_impl(T::neg_impl(dot), tau_inv);
        proof {
            assert(scale == rank_one_scale(basis, factor, conj_lhs, a0, j as int));
        }
        matrix.write(0, j, T::add_impl(col0, scale));
        let mut i: usize = 1;
        while i < m
            invariant
                1 <= i <= m,
                j < ncols,
                m == lay.nrows,
                ncols == lay.ncols,
                m >= 1,
                householder_basis.wf(),
                householder_basis.nrows() == m,
                householder_basis.ncols() == 1,
                basis == householder_basis@,
                matrix.wf(),
                matrix.layout == lay,
                lay.frame(data0, matrix.data@),
                final(matrix.data)@ == fin,
                a0 == lay.model(data0),
                scale == rank_one_scale(basis, factor, conj_lhs, a0, j as int),
                goal == rank_one_apply_spec(basis, factor, conj_lhs, a0, lay.ncols as nat),
                forall|a: int, b: int|
                    0 <= a < m && 0 <= b < ncols ==> #[trigger] matrix@[a][b] == (if b < j || (b
                        == j && a < i) {
                        goal[a][b]
                    } else {
                        a0[a][b]
                    }),
            decreases m - i,
        {
            let e = apply_conj(conj_lhs, householder_basis.read(i, 0));
            let x = matrix.read(i, j);
            matrix.write(i, j, T::mul_add_impl(e, scale, x));
            i += 1;
        }
        j += 1;
    }
    proof {
        assert(matrix@ =~~= goal);
    }
}

/// The columns of an operand are transformed independently of each other:
/// the general path applied to a range of columns gives that range of
/// columns of the general path applied to the whole operand.
pub proof fn lemma_block_apply_columns<T: ComplexField>(
    basis: Seq<Seq<T>>,
    factor: Seq<Seq<T>>,
    conj_lhs: Conj,
    matrix: Seq<Seq<T>>,
    forward: bool,
    n: nat,
    k: nat,
    start: int,
    len: nat,
)
    requires
        n <= matrix.len(),
        algebra::is_matrix(matrix, matrix.len(), k),
        0 <= start,
        start + len <= k,
    ensures
        block_apply_spec(
            basis,
            factor,
            conj_lhs,
            algebra::window(matrix, 0, start, matrix.len(), len),
            forward,
            n,
            len,
        ) == algebra::window(
            block_apply_spec(basis, factor, conj_lhs, matrix, forward, n, k),
            0,
            start,
            matrix.len(),
            len,
        ),
{
    let m = matrix.len();
    let rest = (m - n) as nat;
    let part = algebra::window(matrix, 0, start, m, len);
    let v_top = algebra::window(basis, 0, 0, n, n);
    let v_bot = algebra::window(basis, n as int, 0, rest, n);
    let a_top = algebra::window(matrix, 0, 0, n, k);
    let a_bot = algebra::window(matrix, n as int, 0, rest, k);
    let p_top = algebra::window(part, 0, 0, n, len);
    let p_bot = algebra::window(part, n as int, 0, rest, len);
    assert(p_top =~~= algebra::window(a_top, 0, start, n, len));
    assert(p_bot =~~= algebra::window(a_bot, 0, start, rest, len));
    let adj = Conj::Yes.compose_spec(conj_lhs);
    let one = T::one_spec();
    let minus_one = T::neg_spec(T::one_spec());
    let t1 = triangular::matmul_spec(
        a_top,
        BlockStructure::Rectangular,
        Accum::Replace,
        algebra::transpose(v_top, n),
        BlockStructure::UnitTriangularUpper,
        adj,
        a_top,
        BlockStructure::Rectangular,
        Conj::No,
        one,
    );
    triangular::lemma_matmul_columns(
        a_top,
        Accum::Replace,
        algebra::transpose(v_top, n),
        BlockStructure::UnitTriangularUpper,
        adj,
        a_top,
        Conj::No,
        one,
        start,
        len,
        n,
        k,
        n,
    );
    let t2 = matmul::matmul_spec(
        t1,
        Accum::Add,
        algebra::transpose(v_bot, n),
        adj,
        a_bot,
        Conj::No,
        one,
    );
    triangular::lemma_matmul_columns(
        t1,
        Accum::Add,
        algebra::transpose(v_bot, n),
        BlockStructure::Rectangular,
        adj,
        a_bot,
        Conj::No,
        one,
        start,
        len,
        n,
        k,
        rest,
    );
    let t3 = if forward {
        solve::solve_lower_spec(algebra::transpose(factor, n), adj, t2)
    } else {
        solve::solve_upper_spec(factor, conj_lhs, t2)
    };
    if forward {
        solve::lemma_solve_lower_columns(
            algebra::transpose(factor, n),
            adj,
            t2,
            start,
            len,
            n,
            k,
        );
    } else {
        solve::lemma_solve_upper_columns(factor, conj_lhs, t2, start, len, n, k);
    }
    triangular::lemma_matmul_columns(
        a_top,
        Accum::Add,
        v_top,
        BlockStructure::UnitTriangularLower,
        conj_lhs,
        t3,
        Conj::No,
        minus_one,
        start,
        len,
        n,
        k,
        n,
    );
    triangular::lemma_matmul_columns(
        a_bot,
        Accum::Add,
        v_bot,
        BlockStructure::Rectangular,
        conj_lhs,
        t3,
        Conj::No,
        minus_one,
        start,
        len,
        rest,
        k,
        n,
    );
    let whole = block_apply_spec(basis, factor, conj_lhs, matrix, forward, n, k);
    let piece = block_apply_spec(basis, factor, conj_lhs, part, forward, n, len);
    assert(piece =~~= algebra::window(whole, 0, start, m, len));
}

/// Applies one block from the left to the columns of `matrix`, with `tmp`
/// as the temporary: a matrix of as many rows as the block has reflections
/// and as many columns as `matrix`, whose content is not read.
fn apply_block_to_columns<T: ComplexField>(
    householder_basis: MatRef<'_, T>,
    householder_factor: MatRef<'_, T>,
    conj_lhs: Conj,
    matrix: MatMut<'_, T>,
    tmp: MatMut<'_, T>,
    forward: bool,
    par: Par,
)
    requires
        householder_basis.wf(),
        householder_factor.wf(),
        matrix.wf(),
        tmp.wf(),
        householder_factor.nrows() == householder_factor.ncols(),
        householder_basis.ncols() == householder_factor.nrows(),
        matrix.nrows() == householder_basis.nrows(),
        householder_basis.ncols() <= householder_basis.nrows(),
        tmp.nrows() == householder_basis.ncols(),
        tmp.ncols() == matrix.ncols(),
    ensures
        tmp.layout.frame(old(tmp.data)@, final(tmp.data)@),
        matrix.layout.frame(old(matrix.data)@, final(matrix.data)@),
        matrix.layout.model(final(matrix.data)@) == block_apply_spec(
            householder_basis@,
            householder_factor@,
            conj_lhs,
            matrix@,
            forward,
            householder_basis.ncols() as nat,
            matrix.ncols() as nat,
        ),
{
    let ghost a0 = matrix@;
    let ghost data0 = matrix.data@;
    let ghost lay = matrix.layout;
    let mut matrix = matrix;
    let m = householder_basis.nrows();
    let n = householder_basis.ncols();
    let k = matrix.ncols();
    let rest: usize = m - n;
    let adj = Conj::Yes.compose(conj_lhs);
    let one = T::one_impl();
    let minus_one = T::neg_impl(T::one_impl());
    let (essentials_top, essentials_bot) = householder_basis.split_at_row(n);

    let mut tmp = tmp;
    let ghost tmp0 = tmp@;
    let ghost a_top = algebra::window(a0, 0, 0, n as nat, k as nat);
    let ghost a_bot = algebra::window(a0, n as int, 0, rest as nat, k as nat);

    // essentials* × mat
    triangular::matmul_with_conj(
        tmp.rb_mut(),
        BlockStructure::Rectangular,
        Accum::Replace,
        essentials_top.transpose(),
        BlockStructure::UnitTriangularUpper,
        adj,
        matrix.rb().subrows(0, n),
        BlockStructure::Rectangular,
        Conj::No,
        one,
        par,
    );
    proof {
        lemma_replace_ignores_dst(
            tmp0,
            a_top,
            n as nat,
            k as nat,
            algebra::transpose(essentials_top@, n as nat),
            BlockStructure::UnitTriangularUpper,
            adj,
            a_top,
            BlockStructure::Rectangular,
            Conj::No,
            one,
        );
    }
    matmul::matmul_with_conj(
        tmp.rb_mut(),
        Accum::Add,
        essentials_bot.transpose(),
        adj,
        matrix.rb().subrows(n, rest),
        Conj::No,
        one,
        par,
    );
    // [T^-1|T^-*] × essentials* × tmp
    if forward {
        solve::solve_lower_triangular_in_place_with_conj(
            householder_factor.transpose(),
            adj,
            tmp.rb_mut(),
            par,
        );
    } else {
        solve::solve_upper_triangular_in_place_with_conj(
            householder_factor,
            Conj::No.compose(conj_lhs),
            tmp.rb_mut(),
            par,
        );
    }

    // essentials × [T^-1|T^-*] × essentials* × tmp
    let top = matrix.rb_mut().subrows_mut(0, n);
    let ghost top_lay = top.layout;
    triangular::matmul_with_conj(
        top,
        BlockStructure::Rectangular,
        Accum::Add,
        essentials_top,
        BlockStructure::UnitTriangularLower,
        Conj::No.compose(conj_lhs),
        tmp.rb(),
        BlockStructure::Rectangular,
        Conj::No,
        minus_one,
        par,
    );
    let ghost data1 = matrix.data@;
    let ghost a1 = matrix@;
    proof {
        lay.lemma_window_frame(top_lay, 0, 0, data0, data1);
        assert(algebra::window(a1, n as int, 0, rest as nat, k as nat) =~~= a_bot);
    }
    let bot = matrix.rb_mut().subrows_mut(n, rest);
    let ghost bot_lay = bot.layout;
    matmul::matmul_with_conj(
        bot,
        Accum::Add,
        essentials_bot,
        Conj::No.compose(conj_lhs),
        tmp.rb(),
        Conj::No,
        minus_one,
        par,
    );
    proof {
        let data2 = matrix.data@;
        lay.lemma_window_frame(bot_lay, n as int, 0, data1, data2);
        let goal = block_apply_spec(
            householder_basis@,
            householder_factor@,
            conj_lhs,
            a0,
            forward,
            n as nat,
            k as nat,
        );
        assert(matrix@ =~~= goal);
    }
}

/// How many column ranges the general path of a block application works
/// on: as many as the parallelism handle stands for, at most one for each
/// column and at most four; one where the operation is smaller than
/// `threshold`.
pub open spec fn task_count(par: Par, nrows: usize, ncols: usize, threshold: usize) -> usize {
    let wanted = if par.degree_spec() < ncols {
        par.degree_spec()
    } else {
        ncols
    };
    let bounded = if wanted < 4 {
        wanted
    } else {
        4
    };
    let cells = if nrows * ncols <= usize::MAX {
        nrows * ncols
    } else {
        usize::MAX as int
    };
    let weight = if 4 * nrows <= usize::MAX {
        4 * nrows
    } else {
        usize::MAX as int
    };
    if cells * weight < threshold {
        1
    } else {
        bounded as usize
    }
}

/// Computes `task_count`.
fn count_tasks(par: Par, nrows: usize, ncols: usize, threshold: usize) -> (r: usize)
    ensures
        r == task_count(par, nrows, ncols, threshold),
        r <= 4,
        r <= ncols || r == 1,
{
    let degree = crate::par::parallelism_degree(par);
    let wanted = if degree < ncols {
        degree
    } else {
        ncols
    };
    let bounded = if wanted < 4 {
        wanted
    } else {
        4
    };
    let cells = crate::par::saturating_product(nrows, ncols);
    let weight = crate::par::saturating_product(4, nrows);
    let work = crate::par::saturating_product(cells, weight);
    if work < threshold {
        1
    } else {
        bounded
    }
}

/// Applies one block from the left through a temporary of `n` by `k`
/// entries taken from `stack`. The columns of the operand are worked on in
/// as many ranges as `task_count` says for the threshold of the moment; the
/// result is the same for any number of ranges.
fn apply_block_on_the_left_general<T: ComplexField>(
    householder_basis: MatRef<'_, T>,
    householder_factor: MatRef<'_, T>,
    conj_lhs: Conj,
    matrix: MatMut<'_, T>,
    forward: bool,
    par: Par,
    stack: &mut [T],
)
    requires
        householder_basis.wf(),
        householder_factor.wf(),
        matrix.wf(),
        householder_factor.nrows() == householder_factor.ncols(),
        householder_basis.ncols() == householder_factor.nrows(),
        matrix.nrows() == householder_basis.nrows(),
        householder_basis.ncols() <= householder_basis.nrows(),
        householder_basis.ncols() * matrix.ncols() <= old(stack)@.len(),
    ensures
        final(stack)@.len() == old(stack)@.len(),
        matrix.layout.frame(old(matrix.data)@, final(matrix.data)@),
        matrix.layout.model(final(matrix.data)@) == block_apply_spec(
            householder_basis@,
            householder_factor@,
            conj_lhs,
            matrix@,
            forward,
            householder_basis.ncols() as nat,
            matrix.ncols() as nat,
        ),
{
    let ghost a0 = matrix@;
    let ghost data0 = matrix.data@;
    let ghost fin = final(matrix.data)@;
    let ghost lay = matrix.layout;
    let mut matrix = matrix;
    let m = matrix.nrows();
    let n = householder_basis.ncols();
    let k = matrix.ncols();
    let ghost goal = block_apply_spec(
        householder_basis@,
        householder_factor@,
        conj_lhs,
        a0,
        forward,
        n as nat,
        k as nat,
    );

    let (tmp, unused) = temp_mat_uninit(n, k, stack);
    let mut tmp = tmp;

    let n_tasks = count_tasks(par, m, k, crate::par::threading_threshold());
    let inner_parallelism = match par {
        Par::Sequential => Par::Sequential,
        Par::Rayon(threads) => {
            if 0 < n_tasks && n_tasks <= threads / 2 {
                Par::Rayon(threads / n_tasks)
            } else {
                Par::Sequential
            }
        },
    };

    if n_tasks <= 1 {
        apply_block_to_columns(
            householder_basis,
            householder_factor,
            conj_lhs,
            matrix,
            tmp,
            forward,
            inner_parallelism,
        );
        return ;
    }
    let ghost tlay = tmp.layout;
    let ghost tdata0 = tmp.data@;
    let ghost tfin = final(tmp.data)@;
    proof {
        assert(lay.frame(data0, data0));
        assert(tlay.frame(tdata0, tdata0));
        crate::par::lemma_chunk_start(k as int, n_tasks as int, 0);
    }
    let mut idx: usize = 0;
    while idx < n_tasks
        invariant
            idx <= n_tasks,
            1 < n_tasks,
            m == lay.nrows,
            k == lay.ncols,
            n == tlay.nrows,
            k == tlay.ncols,
            householder_basis.wf(),
            householder_factor.wf(),
            householder_factor.nrows() == householder_factor.ncols(),
            householder_basis.ncols() == householder_factor.nrows(),
            m == householder_basis.nrows(),
            n == householder_basis.ncols(),
            n <= m,
            matrix.wf(),
            matrix.layout == lay,
            lay.frame(data0, matrix.data@),
            final(matrix.data)@ == fin,
            tmp.wf(),
            tmp.layout == tlay,
            tlay.frame(tdata0, tmp.data@),
            final(tmp.data)@ == tfin,
            a0 == lay.model(data0),
            goal == block_apply_spec(
                householder_basis@,
                householder_factor@,
                conj_lhs,
                a0,
                forward,
                n as nat,
                k as nat,
            ),
            0 <= crate::par::chunk_start(k as int, n_tasks as int, idx as int) <= k,
            idx == n_tasks ==> crate::par::chunk_start(k as int, n_tasks as int, idx as int) == k,
            forall|a: int, b: int|
                0 <= a < m && 0 <= b < k ==> #[trigger] matrix@[a][b] == (if b
                    < crate::par::chunk_start(k as int, n_tasks as int, idx as int) {
                    goal[a][b]
                } else {
                    a0[a][b]
                }),
        decreases n_tasks - idx,
    {
        let (start, len) = crate::par::par_split_indices(k, idx, n_tasks);
        let ghost before = matrix@;
        let ghost data_before = matrix.data@;
        let ghost tdata_before = tmp.data@;
        let columns = matrix.rb_mut().subcols_mut(start, len);
        let ghost col_lay = columns.layout;
        let scratch = tmp.rb_mut().subcols_mut(start, len);
        let ghost scratch_lay = scratch.layout;
        proof {
            assert(columns@ =~~= algebra::window(a0, 0, start as int, m as nat, len as nat));
            lemma_block_apply_columns(
                householder_basis@,
                householder_factor@,
                conj_lhs,
                a0,
                forward,
                n as nat,
                k as nat,
                start as int,
                len as nat,
            );
        }
        apply_block_to_columns(
            householder_basis,
            householder_factor,
            conj_lhs,
            columns,
            scratch,
            forward,
            inner_parallelism,
        );
        proof {
            lay.lemma_window_frame(col_lay, 0, start as int, data_before, matrix.data@);
            tlay.lemma_window_frame(scratch_lay, 0, start as int, tdata_before, tmp.data@);
            if idx + 1 < n_tasks {
                crate::par::lemma_chunk_start(k as int, n_tasks as int, idx + 1);
            } else {
                crate::par::lemma_chunk_start(k as int, n_tasks as int, idx as int);
            }
        }
        idx += 1;
    }
    proof {
        assert(matrix@ =~~= goal);
    }
}

/// Applies one block from the left: the rank-one kernel where it applies,
/// the general path otherwise.
fn apply_block_householder_on_the_left_in_place_generic<T: ComplexField>(
    householder_basis: MatRef<'_, T>,
    householder_factor: MatRef<'_, T>,
    conj_lhs: Conj,
    matrix: MatMut<'_, T>,
    forward: bool,
    par: Par,
    stack: &mut [T],
)
    requires
        householder_basis.wf(),
        householder_factor.wf(),
        matrix.wf(),
        householder_factor.nrows() == householder_factor.ncols(),
        householder_basis.ncols() == householder_factor.nrows(),
        matrix.nrows() == householder_basis.nrows(),
        householder_basis.ncols() <= householder_basis.nrows(),
        householder_basis.ncols() * matrix.ncols() <= old(stack)@.len(),
    ensures
        final(stack)@.len() == old(stack)@.len(),
        matrix.layout.frame(old(matrix.data)@, final(matrix.data)@),
        matrix.layout.model(final(matrix.data)@) == apply_on_the_left_spec(
            householder_basis@,
            householder_factor@,
            conj_lhs,
            matrix@,
            forward,
            householder_basis.ncols() as nat,
            matrix.ncols() as nat,
            uses_rank_one_kernel::<T>(householder_basis.layout, matrix.layout),
        ),
{
    if householder_basis.ncols() == 1 && householder_basis.row_stride() == 1
        && matrix.row_stride() == 1 && T::simd_capable() {
        apply_rank_one_on_the_left(householder_basis, householder_factor, conj_lhs, matrix);
    } else {
        apply_block_on_the_left_general(
            householder_basis,
            householder_factor,
            conj_lhs,
            matrix,
            forward,
            par,
            stack,
        );
    }
}

/// What `apply_block_householder_on_the_left_in_place_with_conj` leaves in
/// `matrix`: `H matrix` for the block `H = I - V T⁻¹ Vᴴ`.
pub open spec fn on_the_left_spec<T: ComplexField>(
    basis: Seq<Seq<T>>,
    factor: Seq<Seq<T>>,
    conj_lhs: Conj,
    matrix: Seq<Seq<T>>,
    n: nat,
    k: nat,
    rank_one: bool,
) -> Seq<Seq<T>> {
    apply_on_the_left_spec(basis, factor, conj_lhs, matrix, false, n, k, rank_one)
}

/// What `apply_block_householder_transpose_on_the_left_in_place_with_conj`
/// leaves in `matrix`: the transposed block applied to `matrix`, which is the
/// forward substitution with the basis read through the opposite
/// conjugation.
pub open spec fn transpose_on_the_left_spec<T: ComplexField>(
    basis: Seq<Seq<T>>,
    factor: Seq<Seq<T>>,
    conj_lhs: Conj,
    matrix: Seq<Seq<T>>,
    n: nat,
    k: nat,
    rank_one: bool,
) -> Seq<Seq<T>> {
    apply_on_the_left_spec(
        basis,
        factor,
        conj_lhs.compose_spec(Conj::Yes),
        matrix,
        true,
        n,
        k,
        rank_one,
    )
}

/// Computes the size of the workspace that applying a block Householder
/// transformation to a right-hand-side matrix in place needs.
pub fn apply_block_householder_on_the_left_in_place_scratch(
    householder_basis_nrows: usize,
    blocksize: usize,
    rhs_ncols: usize,
) -> (r: Result<StackReq, SizeOverflow>)
    ensures
        blocksize * rhs_ncols <= usize::MAX ==> r == Ok::<StackReq, SizeOverflow>(
            StackReq { size: (blocksize * rhs_ncols) as usize },
        ),
        blocksize * rhs_ncols > usize::MAX ==> r == Err::<StackReq, SizeOverflow>(
            SizeOverflow {  },
        ),
{
    temp_mat_scratch(blocksize, rhs_ncols)
}

/// Computes the size of the workspace that applying the transpose of a block
/// Householder transformation to a right-hand-side matrix in place needs.
pub fn apply_block_householder_transpose_on_the_left_in_place_scratch(
    householder_basis_nrows: usize,
    blocksize: usize,
    rhs_ncols: usize,
) -> (r: Result<StackReq, SizeOverflow>)
    ensures
        blocksize * rhs_ncols <= usize::MAX ==> r == Ok::<StackReq, SizeOverflow>(
            StackReq { size: (blocksize * rhs_ncols) as usize },
        ),
        blocksize * rhs_ncols > usize::MAX ==> r == Err::<StackReq, SizeOverflow>(
            SizeOverflow {  },
        ),
{
    temp_mat_scratch(blocksize, rhs_ncols)
}

/// Computes the size of the workspace that applying a block Householder
/// transformation to a left-hand-side matrix in place needs.
pub fn apply_block_householder_on_the_right_in_place_scratch(
    householder_basis_nrows: usize,
    blocksize: usize,
    lhs_nrows: usize,
) -> (r: Result<StackReq, SizeOverflow>)
    ensures
        blocksize * lhs_nrows <= usize::MAX ==> r == Ok::<StackReq, SizeOverflow>(
            StackReq { size: (blocksize * lhs_nrows) as usize },
        ),
        blocksize * lhs_nrows > usize::MAX ==> r == Err::<StackReq, SizeOverflow>(
            SizeOverflow {  },
        ),
{
    temp_mat_scratch(blocksize, lhs_nrows)
}

/// Computes the size of the workspace that applying the transpose of a block
/// Householder transformation to a left-hand-side matrix in place needs.
pub fn apply_block_householder_transpose_on_the_right_in_place_scratch(
    householder_basis_nrows: usize,
    blocksize: usize,
    lhs_nrows: usize,
) -> (r: Result<StackReq, SizeOverflow>)
    ensures
        blocksize * lhs_nrows <= usize::MAX ==> r == Ok::<StackReq, SizeOverflow>(
            StackReq { size: (blocksize * lhs_nrows) as usize },
        ),
        blocksize * lhs_nrows > usize::MAX ==> r == Err::<StackReq, SizeOverflow>(
            SizeOverflow {  },
        ),
{
    temp_mat_scratch(blocksize, lhs_nrows)
}

/// Computes the size of the workspace that applying the transpose of a
/// sequence of block Householder transformations to a right-hand-side matrix
/// in place needs.
pub fn apply_block_householder_sequence_transpose_on_the_left_in_place_scratch(
    householder_basis_nrows: usize,
    blocksize: usize,
    rhs_ncols: usize,
) -> (r: Result<StackReq, SizeOverflow>)
    ensures
        blocksize * rhs_ncols <= usize::MAX ==> r == Ok::<StackReq, SizeOverflow>(
            StackReq { size: (blocksize * rhs_ncols) as usize },
        ),
        blocksize * rhs_ncols > usize::MAX ==> r == Err::<StackReq, SizeOverflow>(
            SizeOverflow {  },
        ),
{
    temp_mat_scratch(blocksize, rhs_ncols)
}

/// Computes the size of the workspace that applying a sequence of block
/// Householder transformations to a right-hand-side matrix in place needs.
pub fn apply_block_householder_sequence_on_the_left_in_place_scratch(
    householder_basis_nrows: usize,
    blocksize: usize,
    rhs_ncols: usize,
) -> (r: Result<StackReq, SizeOverflow>)
    ensures
        blocksize * rhs_ncols <= usize::MAX ==> r == Ok::<StackReq, SizeOverflow>(
            StackReq { size: (blocksize * rhs_ncols) as usize },
        ),
        blocksize * rhs_ncols > usize::MAX ==> r == Err::<StackReq, SizeOverflow>(
            SizeOverflow {  },
        ),
{
    temp_mat_scratch(blocksize, rhs_ncols)
}

/// Computes the size of the workspace that applying the transpose of a
/// sequence of block Householder transformations to a left-hand-side matrix
/// in place needs.
pub fn apply_block_householder_sequence_transpose_on_the_right_in_place_scratch(
    householder_basis_nrows: usize,
    blocksize: usize,
    lhs_nrows: usize,
) -> (r: Result<StackReq, SizeOverflow>)
    ensures
        blocksize * lhs_nrows <= usize::MAX ==> r == Ok::<StackReq, SizeOverflow>(
            StackReq { size: (blocksize * lhs_nrows) as usize },
        ),
        blocksize * lhs_nrows > usize::MAX ==> r == Err::<StackReq, SizeOverflow>(
            SizeOverflow {  },
        ),
{
    temp_mat_scratch(blocksize, lhs_nrows)
}

/// Computes the size of the workspace that applying a sequence of block
/// Householder transformations to a left-hand-side matrix in place needs.
pub fn apply_block_householder_sequence_on_the_right_in_place_scratch(
    householder_basis_nrows: usize,
    blocksize: usize,
    lhs_nrows: usize,
) -> (r: Result<StackReq, SizeOverflow>)
    ensures
        blocksize * lhs_nrows <= usize::MAX ==> r == Ok::<StackReq, SizeOverflow>(
            StackReq { size: (blocksize * lhs_nrows) as usize },
        ),
        blocksize * lhs_nrows > usize::MAX ==> r == Err::<StackReq, SizeOverflow>(
            SizeOverflow {  },
        ),
{
    temp_mat_scratch(blocksize, lhs_nrows)
}

/// Computes the product of the given block Householder transformation,
/// multiplied by `matrix`, and stores the result in `matrix`.
pub fn apply_block_householder_on_the_left_in_place_with_conj<T: ComplexField>(
    householder_basis: MatRef<'_, T>,
    householder_factor: MatRef<'_, T>,
    conj_lhs: Conj,
    matrix: MatMut<'_, T>,
    par: Par,
    stack: &mut [T],
)
    requires
        householder_basis.wf(),
        householder_factor.wf(),
        matrix.wf(),
        householder_factor.nrows() == householder_factor.ncols(),
        householder_basis.ncols() == householder_factor.nrows(),
        matrix.nrows() == householder_basis.nrows(),
        householder_basis.ncols() <= householder_basis.nrows(),
        householder_basis.ncols() * matrix.ncols() <= old(stack)@.len(),
    ensures
        final(stack)@.len() == old(stack)@.len(),
        matrix.layout.frame(old(matrix.data)@, final(matrix.data)@),
        matrix.layout.model(final(matrix.data)@) == on_the_left_spec(
            householder_basis@,
            householder_factor@,
            conj_lhs,
            matrix@,
            householder_basis.ncols() as nat,
            matrix.ncols() as nat,
            uses_rank_one_kernel::<T>(householder_basis.layout, matrix.layout),
        ),
{
    apply_block_householder_on_the_left_in_place_generic(
        householder_basis,
        householder_factor,
        conj_lhs,
        matrix,
        false,
        par,
        stack,
    )
}

/// Computes the product of the transpose of the given block Householder
/// transformation, multiplied by `matrix`, and stores the result in
/// `matrix`.
pub fn apply_block_householder_transpose_on_the_left_in_place_with_conj<T: ComplexField>(
    householder_basis: MatRef<'_, T>,
    householder_factor: MatRef<'_, T>,
    conj_lhs: Conj,
    matrix: MatMut<'_, T>,
    par: Par,
    stack: &mut [T],
)
    requires
        householder_basis.wf(),
        householder_factor.wf(),
        matrix.wf(),
        householder_factor.nrows() == householder_factor.ncols(),
        householder_basis.ncols() == householder_factor.nrows(),
        matrix.nrows() == householder_basis.nrows(),
        householder_basis.ncols() <= householder_basis.nrows(),
        householder_basis.ncols() * matrix.ncols() <= old(stack)@.len(),
    ensures
        final(stack)@.len() == old(stack)@.len(),
        matrix.layout.frame(old(matrix.data)@, final(matrix.data)@),
        matrix.layout.model(final(matrix.data)@) == transpose_on_the_left_spec(
            householder_basis@,
            householder_factor@,
            conj_lhs,
            matrix@,
            householder_basis.ncols() as nat,
            matrix.ncols() as nat,
            uses_rank_one_kernel::<T>(householder_basis.layout, matrix.layout),
        ),
{
    apply_block_householder_on_the_left_in_place_generic(
        householder_basis,
        householder_factor,
        conj_lhs.compose(Conj::Yes),
        matrix,
        true,
        par,
        stack,
    )
}

/// Computes the product of the matrix, multiplied by the given block
/// Householder transformation, and stores the result in `matrix`.
pub fn apply_block_householder_on_the_right_in_place_with_conj<T: ComplexField>(
    householder_basis: MatRef<'_, T>,
    householder_factor: MatRef<'_, T>,
    conj_rhs: Conj,
    matrix: MatMut<'_, T>,
    par: Par,
    stack: &mut [T],
)
    requires
        householder_basis.wf(),
        householder_factor.wf(),
        matrix.wf(),
        householder_factor.nrows() == householder_factor.ncols(),
        householder_basis.ncols() == householder_factor.nrows(),
        matrix.ncols() == householder_basis.nrows(),
        householder_basis.ncols() <= householder_basis.nrows(),
        householder_basis.ncols() * matrix.nrows() <= old(stack)@.len(),
    ensures
        final(stack)@.len() == old(stack)@.len(),
        matrix.layout.frame(old(matrix.data)@, final(matrix.data)@),
        matrix.layout.model(final(matrix.data)@) == algebra::transpose(
            transpose_on_the_left_spec(
                householder_basis@,
                householder_factor@,
                conj_rhs,
                algebra::transpose(matrix@, matrix.ncols() as nat),
                householder_basis.ncols() as nat,
                matrix.nrows() as nat,
                uses_rank_one_kernel::<T>(householder_basis.layout, matrix.layout.transposed()),
            ),
            matrix.nrows() as nat,
        ),
{
    let ghost lay = matrix.layout;
    let ghost data0 = matrix.data@;
    let ghost fin = final(matrix.data)@;
    let transposed = matrix.transpose_mut();
    let ghost tlay = transposed.layout;
    apply_block_householder_transpose_on_the_left_in_place_with_conj(
        householder_basis,
        householder_factor,
        conj_rhs,
        transposed,
        par,
        stack,
    );
    proof {
        lay.lemma_transpose(tlay, data0.len());
        lay.lemma_same_cover_frame(tlay, data0, fin);
        tlay.lemma_transpose_model(lay, fin);
    }
}

/// Computes the product of the matrix, multiplied by the transpose of the
/// given block Householder transformation, and stores the result in
/// `matrix`.
pub fn apply_block_householder_transpose_on_the_right_in_place_with_conj<T: ComplexField>(
    householder_basis: MatRef<'_, T>,
    householder_factor: MatRef<'_, T>,
    conj_rhs: Conj,
    matrix: MatMut<'_, T>,
    par: Par,
    stack: &mut [T],
)
    requires
        householder_basis.wf(),
        householder_factor.wf(),
        matrix.wf(),
        householder_factor.nrows() == householder_factor.ncols(),
        householder_basis.ncols() == householder_factor.nrows(),
        matrix.ncols() == householder_basis.nrows(),
        householder_basis.ncols() <= householder_basis.nrows(),
        householder_basis.ncols() * matrix.nrows() <= old(stack)@.len(),
    ensures
        final(stack)@.len() == old(stack)@.len(),
        matrix.layout.frame(old(matrix.data)@, final(matrix.data)@),
        matrix.layout.model(final(matrix.data)@) == algebra::transpose(
            on_the_left_spec(
                householder_basis@,
                householder_factor@,
                conj_rhs,
                algebra::transpose(matrix@, matrix.ncols() as nat),
                householder_basis.ncols() as nat,
                matrix.nrows() as nat,
                uses_rank_one_kernel::<T>(householder_basis.layout, matrix.layout.transposed()),
            ),
            matrix.nrows() as nat,
        ),
{
    let ghost lay = matrix.layout;
    let ghost data0 = matrix.data@;
    let ghost fin = final(matrix.data)@;
    let transposed = matrix.transpose_mut();
    let ghost tlay = transposed.layout;
    apply_block_householder_on_the_left_in_place_with_conj(
        householder_basis,
        householder_factor,
        conj_rhs,
        transposed,
        par,
        stack,
    );
    proof {
        lay.lemma_transpose(tlay, data0.len());
        lay.lemma_same_cover_frame(tlay, data0, fin);
        tlay.lemma_transpose_model(lay, fin);
    }
}

/// Number of blocks of a sequence of `size` reflections in blocks of
/// `blocksize`: every block is full but possibly the last one.
pub open spec fn block_count(size: int, blocksize: int) -> int {
    if blocksize <= 0 || size <= 0 {
        0
    } else {
        (size + blocksize - 1) / blocksize
    }
}

/// Number of reflections in the block that starts at column `start`.
pub open spec fn block_len(size: int, blocksize: int, start: int) -> int {
    if size - start < blocksize {
        size - start
    } else {
        blocksize
    }
}

/// `matrix` after block `b` of the sequence was applied from the left to its
/// rows from the first row of the block on. The block starts at row and
/// column `b * blocksize` of the basis; its factor stands in the same
/// columns of `factor`. With `transposed` the transpose of the block is
/// applied. `contiguous` says whether the rows of the basis and of the
/// operand are contiguous in memory.
pub open spec fn apply_block_at<T: ComplexField>(
    basis: Seq<Seq<T>>,
    factor: Seq<Seq<T>>,
    conj_lhs: Conj,
    matrix: Seq<Seq<T>>,
    transposed: bool,
    size: int,
    blocksize: int,
    k: nat,
    contiguous: bool,
    b: int,
) -> Seq<Seq<T>> {
    let start = b * blocksize;
    let len = block_len(size, blocksize, start) as nat;
    let rows = (matrix.len() - start) as nat;
    let essentials = algebra::window(basis, start, start, rows, len);
    let householder = algebra::window(factor, 0, start, len, len);
    let operand = algebra::window(matrix, start, 0, rows, k);
    let rank_one = contiguous && len == 1 && T::simd_capable_spec();
    let result = if transposed {
        transpose_on_the_left_spec(essentials, householder, conj_lhs, operand, len, k, rank_one)
    } else {
        on_the_left_spec(essentials, householder, conj_lhs, operand, len, k, rank_one)
    };
    algebra::replace_window(matrix, start, 0, result)
}

/// `matrix` after the blocks `b, b + 1, ...` of the sequence were applied to
/// it from the left, the last block first and block `b` last.
pub open spec fn sequence_on_the_left_from<T: ComplexField>(
    basis: Seq<Seq<T>>,
    factor: Seq<Seq<T>>,
    conj_lhs: Conj,
    matrix: Seq<Seq<T>>,
    size: int,
    blocksize: int,
    k: nat,
    contiguous: bool,
    b: int,
) -> Seq<Seq<T>>
    decreases block_count(size, blocksize) - b,
{
    if b >= block_count(size, blocksize) || b < 0 {
        matrix
    } else {
        apply_block_at(
            basis,
            factor,
            conj_lhs,
            sequence_on_the_left_from(
                basis,
                factor,
                conj_lhs,
                matrix,
                size,
                blocksize,
                k,
                contiguous,
                b + 1,
            ),
            false,
            size,
            blocksize,
            k,
            contiguous,
            b,
        )
    }
}

/// `matrix` after the transposes of the first `b` blocks of the sequence
/// were applied to it from the left, the first block first.
pub open spec fn sequence_transpose_on_the_left_upto<T: ComplexField>(
    basis: Seq<Seq<T>>,
    factor: Seq<Seq<T>>,
    conj_lhs: Conj,
    matrix: Seq<Seq<T>>,
    size: int,
    blocksize: int,
    k: nat,
    contiguous: bool,
    b: int,
) -> Seq<Seq<T>>
    decreases b,
{
    if b <= 0 {
        matrix
    } else {
        apply_block_at(
            basis,
            factor,
            conj_lhs,
            sequence_transpose_on_the_left_upto(
                basis,
                factor,
                conj_lhs,
                matrix,
                size,
                blocksize,
                k,
                contiguous,
                b - 1,
            ),
            true,
            size,
            blocksize,
            k,
            contiguous,
            b - 1,
        )
    }
}

/// What `apply_block_householder_sequence_on_the_left_in_place_with_conj`
/// leaves in `matrix`: every block applied, from the last to the first.
pub open spec fn sequence_on_the_left_spec<T: ComplexField>(
    basis: Seq<Seq<T>>,
    factor: Seq<Seq<T>>,
    conj_lhs: Conj,
    matrix: Seq<Seq<T>>,
    size: int,
    blocksize: int,
    k: nat,
    contiguous: bool,
) -> Seq<Seq<T>> {
    sequence_on_the_left_from(basis, factor, conj_lhs, matrix, size, blocksize, k, contiguous, 0)
}

/// What
/// `apply_block_householder_sequence_transpose_on_the_left_in_place_with_conj`
/// leaves in `matrix`: the transpose of every block applied, from the first
/// to the last.
pub open spec fn sequence_transpose_on_the_left_spec<T: ComplexField>(
    basis: Seq<Seq<T>>,
    factor: Seq<Seq<T>>,
    conj_lhs: Conj,
    matrix: Seq<Seq<T>>,
    size: int,
    blocksize: int,
    k: nat,
    contiguous: bool,
) -> Seq<Seq<T>> {
    sequence_transpose_on_the_left_upto(
        basis,
        factor,
        conj_lhs,
        matrix,
        size,
        blocksize,
        k,
        contiguous,
        block_count(size, blocksize),
    )
}

/// The arithmetic of the blocks: block `b` starts inside the sequence, the
/// blocks before the last are full, and the block after the last would start
/// at or after the end.
pub proof fn lemma_block_bounds(size: int, blocksize: int, b: int)
    requires
        0 < blocksize,
        0 <= size,
        0 <= b < block_count(size, blocksize),
    ensures
        0 <= b * blocksize < size,
        0 < block_len(size, blocksize, b * blocksize) <= blocksize,
        b * blocksize + block_len(size, blocksize, b * blocksize) <= size,
        (b + 1) * blocksize == b * blocksize + blocksize,
        b + 1 < block_count(size, blocksize) ==> block_len(size, blocksize, b * blocksize)
            == blocksize,
        block_count(size, blocksize) * blocksize >= size,
{
    let nb = block_count(size, blocksize);
    assert(nb == (size + blocksize - 1) / blocksize);
    assert(nb * blocksize <= size + blocksize - 1 && size + blocksize - 1 < nb * blocksize
        + blocksize) by (nonlinear_arith)
        requires
            nb == (size + blocksize - 1) / blocksize,
            0 < blocksize,
    ;
    assert(0 <= b * blocksize && b * blocksize + blocksize <= nb * blocksize && (b + 1)
        * blocksize == b * blocksize + blocksize) by (nonlinear_arith)
        requires
            0 <= b < nb,
            0 < blocksize,
    ;
    if b + 1 < nb {
        assert((b + 1) * blocksize + blocksize <= nb * blocksize) by (nonlinear_arith)
            requires
                b + 1 < nb,
                0 < blocksize,
        ;
    }
}

/// The number of blocks of a sequence.
fn count_blocks(size: usize, blocksize: usize) -> (r: usize)
    requires
        blocksize > 0,
    ensures
        r == block_count(size as int, blocksize as int),
        r <= size,
{
    if size == 0 {
        0
    } else {
        let r = (size - 1) / blocksize + 1;
        proof {
            let s = size as int;
            let bs = blocksize as int;
            let q = (s - 1) / bs;
            assert(q * bs <= s - 1 && s - 1 < q * bs + bs) by (nonlinear_arith)
                requires
                    q == (s - 1) / bs,
                    0 < bs,
            ;
            let q2 = (s + bs - 1) / bs;
            assert(q2 * bs <= s + bs - 1 && s + bs - 1 < q2 * bs + bs) by (nonlinear_arith)
                requires
                    q2 == (s + bs - 1) / bs,
                    0 < bs,
            ;
            assert(q2 == q + 1) by (nonlinear_arith)
                requires
                    q * bs <= s - 1,
                    s - 1 < q * bs + bs,
                    q2 * bs <= s + bs - 1,
                    s + bs - 1 < q2 * bs + bs,
                    0 < bs,
            ;
            assert(q <= s - 1) by (nonlinear_arith)
                requires
                    q * bs <= s - 1,
                    0 < bs,
                    0 <= q,
            ;
        }
        r
    }
}

/// Applies block `b` of a sequence, or its transpose, to the rows of
/// `matrix` from the first row of the block on.
fn apply_sequence_block<T: ComplexField>(
    householder_basis: MatRef<'_, T>,
    householder_factor: MatRef<'_, T>,
    conj_lhs: Conj,
    matrix: MatMut<'_, T>,
    transposed: bool,
    b: usize,
    par: Par,
    stack: &mut [T],
)
    requires
        householder_basis.wf(),
        householder_factor.wf(),
        matrix.wf(),
        householder_factor.nrows() > 0,
        householder_factor.ncols() <= householder_basis.ncols(),
        householder_factor.ncols() <= householder_basis.nrows(),
        matrix.nrows() == householder_basis.nrows(),
        householder_factor.nrows() * matrix.ncols() <= old(stack)@.len(),
        b < block_count(householder_factor.ncols() as int, householder_factor.nrows() as int),
    ensures
        final(stack)@.len() == old(stack)@.len(),
        matrix.layout.frame(old(matrix.data)@, final(matrix.data)@),
        matrix.layout.model(final(matrix.data)@) == apply_block_at(
            householder_basis@,
            householder_factor@,
            conj_lhs,
            matrix@,
            transposed,
            householder_factor.ncols() as int,
            householder_factor.nrows() as int,
            matrix.ncols() as nat,
            householder_basis.layout.row_stride == 1 && matrix.layout.row_stride == 1,
            b as int,
        ),
{
    let ghost lay = matrix.layout;
    let ghost data0 = matrix.data@;
    let blocksize = householder_factor.nrows();
    let size = householder_factor.ncols();
    let m = householder_basis.nrows();
    let k = matrix.ncols();
    proof {
        lemma_block_bounds(size as int, blocksize as int, b as int);
    }
    let start: usize = b * blocksize;
    let len: usize = if size - start < blocksize {
        size - start
    } else {
        blocksize
    };
    proof {
        assert(len * k <= blocksize * k) by (nonlinear_arith)
            requires
                len <= blocksize,
                0 <= k,
        ;
    }
    let essentials = householder_basis.submatrix(start, start, m - start, len);
    let householder = householder_factor.submatrix(0, start, len, len);
    let mut matrix = matrix;
    let operand = matrix.rb_mut().subrows_mut(start, m - start);
    let ghost sub_lay = operand.layout;
    proof {
        assert(essentials.layout.row_stride == householder_basis.layout.row_stride);
        assert(sub_lay.row_stride == lay.row_stride);
    }
    if transposed {
        apply_block_householder_transpose_on_the_left_in_place_with_conj(
            essentials,
            householder,
            conj_lhs,
            operand,
            par,
            stack,
        );
    } else {
        apply_block_householder_on_the_left_in_place_with_conj(
            essentials,
            householder,
            conj_lhs,
            operand,
            par,
            stack,
        );
    }
    proof {
        lay.lemma_window_frame(sub_lay, start as int, 0, data0, matrix.data@);
    }
}

/// Computes the product of a sequence of block Householder transformations
/// given by `householder_basis` and `householder_factor`, multiplied by
/// `matrix`, and stores the result in `matrix`. The number of rows of
/// `householder_factor` is the size of the blocks; the last block holds
/// what is left. The blocks are applied from the last to the first.
pub fn apply_block_householder_sequence_on_the_left_in_place_with_conj<T: ComplexField>(
    householder_basis: MatRef<'_, T>,
    householder_factor: MatRef<'_, T>,
    conj_lhs: Conj,
    matrix: MatMut<'_, T>,
    par: Par,
    stack: &mut [T],
)
    requires
        householder_basis.wf(),
        householder_factor.wf(),
        matrix.wf(),
        householder_factor.nrows() > 0,
        householder_factor.ncols() <= householder_basis.ncols(),
        householder_factor.ncols() <= householder_basis.nrows(),
        matrix.nrows() == householder_basis.nrows(),
        householder_factor.nrows() * matrix.ncols() <= old(stack)@.len(),
    ensures
        final(stack)@.len() == old(stack)@.len(),
        matrix.layout.frame(old(matrix.data)@, final(matrix.data)@),
        matrix.layout.model(final(matrix.data)@) == sequence_on_the_left_spec(
            householder_basis@,
            householder_factor@,
            conj_lhs,
            matrix@,
            householder_factor.ncols() as int,
            householder_factor.nrows() as int,
            matrix.ncols() as nat,
            householder_basis.layout.row_stride == 1 && matrix.layout.row_stride == 1,
        ),
{
    let ghost a0 = matrix@;
    let ghost data0 = matrix.data@;
    let ghost fin = final(matrix.data)@;
    let ghost lay = matrix.layout;
    let ghost len0 = stack@.len();
    let ghost contiguous = householder_basis.layout.row_stride == 1 && lay.row_stride == 1;
    let mut matrix = matrix;
    let blocksize = householder_factor.nrows();
    let size = householder_factor.ncols();
    let count = count_blocks(size, blocksize);
    let mut b: usize = count;
    proof {
        assert(lay.frame(data0, data0));
    }
    while b > 0
        invariant
            b <= count,
            count == block_count(size as int, blocksize as int),
            blocksize == householder_factor.nrows(),
            size == householder_factor.ncols(),
            blocksize > 0,
            householder_basis.wf(),
            householder_factor.wf(),
            size <= householder_basis.ncols(),
            size <= householder_basis.nrows(),
            lay.nrows == householder_basis.nrows(),
            blocksize * lay.ncols <= len0,
            stack@.len() == len0,
            contiguous == (householder_basis.layout.row_stride == 1 && lay.row_stride == 1),
            matrix.wf(),
            matrix.layout == lay,
            lay.frame(data0, matrix.data@),
            final(matrix.data)@ == fin,
            a0 == lay.model(data0),
            matrix@ == sequence_on_the_left_from(
                householder_basis@,
                householder_factor@,
                conj_lhs,
                a0,
                size as int,
                blocksize as int,
                lay.ncols as nat,
                contiguous,
                b as int,
            ),
        decreases b,
    {
        b -= 1;
        apply_sequence_block(
            householder_basis,
            householder_factor,
            conj_lhs,
            matrix.rb_mut(),
            false,
            b,
            par,
            stack,
        );
    }
}

/// Computes the product of the transpose of a sequence of block Householder
/// transformations given by `householder_basis` and `householder_factor`,
/// multiplied by `matrix`, and stores the result in `matrix`. The transposes
/// of the blocks are applied from the first to the last.
pub fn apply_block_householder_sequence_transpose_on_the_left_in_place_with_conj<
    T: ComplexField,
>(
    householder_basis: MatRef<'_, T>,
    householder_factor: MatRef<'_, T>,
    conj_lhs: Conj,
    matrix: MatMut<'_, T>,
    par: Par,
    stack: &mut [T],
)
    requires
        householder_basis.wf(),
        householder_factor.wf(),
        matrix.wf(),
        householder_factor.nrows() > 0,
        householder_factor.ncols() <= householder_basis.ncols(),
        householder_factor.ncols() <= householder_basis.nrows(),
        matrix.nrows() == householder_basis.nrows(),
        householder_factor.nrows() * matrix.ncols() <= old(stack)@.len(),
    ensures
        final(stack)@.len() == old(stack)@.len(),
        matrix.layout.frame(old(matrix.data)@, final(matrix.data)@),
        matrix.layout.model(final(matrix.data)@) == sequence_transpose_on_the_left_spec(
            householder_basis@,
            householder_factor@,
            conj_lhs,
            matrix@,
            householder_factor.ncols() as int,
            householder_factor.nrows() as int,
            matrix.ncols() as nat,
            householder_basis.layout.row_stride == 1 && matrix.layout.row_stride == 1,
        ),
{
    let ghost a0 = matrix@;
    let ghost data0 = matrix.data@;
    let ghost fin = final(matrix.data)@;
    let ghost lay = matrix.layout;
    let ghost len0 = stack@.len();
    let ghost contiguous = householder_basis.layout.row_stride == 1 && lay.row_stride == 1;
    let mut matrix = matrix;
    let blocksize = householder_factor.nrows();
    let size = householder_factor.ncols();
    let count = count_blocks(size, blocksize);
    let mut b: usize = 0;
    proof {
        assert(lay.frame(data0, data0));
    }
    while b < count
        invariant
            b <= count,
            count == block_count(size as int, blocksize as int),
            blocksize == householder_factor.nrows(),
            size == householder_factor.ncols(),
            blocksize > 0,
            householder_basis.wf(),
            householder_factor.wf(),
            size <= householder_basis.ncols(),
            size <= householder_basis.nrows(),
            lay.nrows == householder_basis.nrows(),
            blocksize * lay.ncols <= len0,
            stack@.len() == len0,
            contiguous == (householder_basis.layout.row_stride == 1 && lay.row_stride == 1),
            matrix.wf(),
            matrix.layout == lay,
            lay.frame(data0, matrix.data@),
            final(matrix.data)@ == fin,
            a0 == lay.model(data0),
            matrix@ == sequence_transpose_on_the_left_upto(
                householder_basis@,
                householder_factor@,
                conj_lhs,
                a0,
                size as int,
                blocksize as int,
                lay.ncols as nat,
                contiguous,
                b as int,
            ),
        decreases count - b,
    {
        apply_sequence_block(
            householder_basis,
            householder_factor,
            conj_lhs,
            matrix.rb_mut(),
            true,
            b,
            par,
            stack,
        );
        b += 1;
    }
}

/// Computes the product of `matrix`, multiplied by a sequence of block
/// Householder transformations given by `householder_basis` and
/// `householder_factor`, and stores the result in `matrix`.
pub fn apply_block_householder_sequence_on_the_right_in_place_with_conj<T: ComplexField>(
    householder_basis: MatRef<'_, T>,
    householder_factor: MatRef<'_, T>,
    conj_rhs: Conj,
    matrix: MatMut<'_, T>,
    par: Par,
    stack: &mut [T],
)
    requires
        householder_basis.wf(),
        householder_factor.wf(),
        matrix.wf(),
        householder_factor.nrows() > 0,
        householder_factor.ncols() <= householder_basis.ncols(),
        householder_factor.ncols() <= householder_basis.nrows(),
        matrix.ncols() == householder_basis.nrows(),
        householder_factor.nrows() * matrix.nrows() <= old(stack)@.len(),
    ensures
        final(stack)@.len() == old(stack)@.len(),
        matrix.layout.frame(old(matrix.data)@, final(matrix.data)@),
        matrix.layout.model(final(matrix.data)@) == algebra::transpose(
            sequence_transpose_on_the_left_spec(
                householder_basis@,
                householder_factor@,
                conj_rhs,
                algebra::transpose(matrix@, matrix.ncols() as nat),
                householder_factor.ncols() as int,
                householder_factor.nrows() as int,
                matrix.nrows() as nat,
                householder_basis.layout.row_stride == 1 && matrix.layout.col_stride == 1,
            ),
            matrix.nrows() as nat,
        ),
{
    let ghost lay = matrix.layout;
    let ghost data0 = matrix.data@;
    let ghost fin = final(matrix.data)@;
    let transposed = matrix.transpose_mut();
    let ghost tlay = transposed.layout;
    apply_block_householder_sequence_transpose_on_the_left_in_place_with_conj(
        householder_basis,
        householder_factor,
        conj_rhs,
        transposed,
        par,
        stack,
    );
    proof {
        lay.lemma_transpose(tlay, data0.len());
        lay.lemma_same_cover_frame(tlay, data0, fin);
        tlay.lemma_transpose_model(lay, fin);
    }
}

/// Computes the product of `matrix`, multiplied by the transpose of a
/// sequence of block Householder transformations given by
/// `householder_basis` and `householder_factor`, and stores the result in
/// `matrix`.
pub fn apply_block_householder_sequence_transpose_on_the_right_in_place_with_conj<
    T: ComplexField,
>(
    householder_basis: MatRef<'_, T>,
    householder_factor: MatRef<'_, T>,
    conj_rhs: Conj,
    matrix: MatMut<'_, T>,
    par: Par,
    stack: &mut [T],
)
    requires
        householder_basis.wf(),
        householder_factor.wf(),
        matrix.wf(),
        householder_factor.nrows() > 0,
        householder_factor.ncols() <= householder_basis.ncols(),
        householder_factor.ncols() <= householder_basis.nrows(),
        matrix.ncols() == householder_basis.nrows(),
        householder_factor.nrows() * matrix.nrows() <= old(stack)@.len(),
    ensures
        final(stack)@.len() == old(stack)@.len(),
        matrix.layout.frame(old(matrix.data)@, final(matrix.data)@),
        matrix.layout.model(final(matrix.data)@) == algebra::transpose(
            sequence_on_the_left_spec(
                householder_basis@,
                householder_factor@,
                conj_rhs,
                algebra::transpose(matrix@, matrix.ncols() as nat),
                householder_factor.ncols() as int,
                householder_factor.nrows() as int,
                matrix.nrows() as nat,
                householder_basis.layout.row_stride == 1 && matrix.layout.col_stride == 1,
            ),
            matrix.nrows() as nat,
        ),
{
    let ghost lay = matrix.layout;
    let ghost data0 = matrix.data@;
    let ghost fin = final(matrix.data)@;
    let transposed = matrix.transpose_mut();
    let ghost tlay = transposed.layout;
    apply_block_householder_sequence_on_the_left_in_place_with_conj(
        householder_basis,
        householder_factor,
        conj_rhs,
        transposed,
        par,
        stack,
    );
    proof {
        lay.lemma_transpose(tlay, data0.len());
        lay.lemma_same_cover_frame(tlay, data0, fin);
        tlay.lemma_transpose_model(lay, fin);
    }
}

/// A sequence of two blocks is the second block applied first and the first
/// block applied to the result.
pub proof fn lemma_two_block_sequence_order<T: ComplexField>(
    basis: Seq<Seq<T>>,
    factor: Seq<Seq<T>>,
    conj_lhs: Conj,
    matrix: Seq<Seq<T>>,
    size: int,
    blocksize: int,
    k: nat,
    contiguous: bool,
)
    requires
        0 < blocksize < size <= 2 * blocksize,
    ensures
        block_count(size, blocksize) == 2,
        sequence_on_the_left_spec(basis, factor, conj_lhs, matrix, size, blocksize, k, contiguous)
            == apply_block_at(
            basis,
            factor,
            conj_lhs,
            apply_block_at(
                basis,
                factor,
                conj_lhs,
                matrix,
                false,
                size,
                blocksize,
                k,
                contiguous,
                1,
            ),
            false,
            size,
            blocksize,
            k,
            contiguous,
            0,
        ),
        sequence_transpose_on_the_left_spec(
            basis,
            factor,
            conj_lhs,
            matrix,
            size,
            blocksize,
            k,
            contiguous,
        ) == apply_block_at(
            basis,
            factor,
            conj_lhs,
            apply_block_at(
                basis,
                factor,
                conj_lhs,
                matrix,
                true,
                size,
                blocksize,
                k,
                contiguous,
                0,
            ),
            true,
            size,
            blocksize,
            k,
            contiguous,
            1,
        ),
{
    let nb = block_count(size, blocksize);
    assert(nb == 2) by (nonlinear_arith)
        requires
            nb == (size + blocksize - 1) / blocksize,
            0 < blocksize < size <= 2 * blocksize,
    ;
    reveal_with_fuel(sequence_on_the_left_from, 4);
    reveal_with_fuel(sequence_transpose_on_the_left_upto, 4);
}

/// A sequence of two blocks in the terms of the single-block application:
/// with `second` the operand after the second block was applied to its rows
/// from `blocksize` on, the sequence leaves the first block applied to all
/// the rows of `second`.
pub proof fn lemma_two_block_sequence_by_blocks<T: ComplexField>(
    basis: Seq<Seq<T>>,
    factor: Seq<Seq<T>>,
    conj_lhs: Conj,
    matrix: Seq<Seq<T>>,
    size: int,
    blocksize: int,
    k: nat,
    contiguous: bool,
)
    requires
        0 < blocksize < size <= 2 * blocksize,
    ensures
        ({
            let rest = (matrix.len() - blocksize) as nat;
            let len = (size - blocksize) as nat;
            let second = algebra::replace_window(
                matrix,
                blocksize,
                0,
                on_the_left_spec(
                    algebra::window(basis, blocksize, blocksize, rest, len),
                    algebra::window(factor, 0, blocksize, len, len),
                    conj_lhs,
                    algebra::window(matrix, blocksize, 0, rest, k),
                    len,
                    k,
                    contiguous && len == 1 && T::simd_capable_spec(),
                ),
            );
            sequence_on_the_left_spec(
                basis,
                factor,
                conj_lhs,
                matrix,
                size,
                blocksize,
                k,
                contiguous,
            ) == algebra::replace_window(
                second,
                0,
                0,
                on_the_left_spec(
                    algebra::window(basis, 0, 0, second.len(), blocksize as nat),
                    algebra::window(factor, 0, 0, blocksize as nat, blocksize as nat),
                    conj_lhs,
                    algebra::window(second, 0, 0, second.len(), k),
                    blocksize as nat,
                    k,
                    contiguous && blocksize == 1 && T::simd_capable_spec(),
                ),
            )
        }),
{
    lemma_two_block_sequence_order(
        basis,
        factor,
        conj_lhs,
        matrix,
        size,
        blocksize,
        k,
        contiguous,
    );
    assert(1 * blocksize == blocksize && 0 * blocksize == 0);
}

/// The inputs on which a factor of `n` reflections can be upgraded from
/// blocks of `prev_blocksize` to blocks of `blocksize`: nothing is asked
/// where there is nothing to do; otherwise the new block size is positive,
/// and where the factor holds more than one new block the new block size is
/// a proper multiple of the previous one.
pub open spec fn upgrade_admissible(n: int, blocksize: int, prev_blocksize: int) -> bool {
    ||| blocksize == prev_blocksize
    ||| n <= prev_blocksize
    ||| (blocksize > 0 && (n > blocksize ==> prev_blocksize > 0 && blocksize > prev_blocksize
        && blocksize % prev_blocksize == 0))
}

/// Where an upgrade splits a factor of `n` reflections: at the boundary of
/// the middle new block if the factor holds several new blocks, at the
/// boundary of the middle previous block otherwise.
pub open spec fn upgrade_split(n: int, blocksize: int, prev_blocksize: int) -> int {
    if block_count(n, blocksize) > 1 {
        (block_count(n, blocksize) / 2) * blocksize
    } else {
        (block_count(n, prev_blocksize) / 2) * prev_blocksize
    }
}

/// The factor of one block computed from its basis alone: above the
/// diagonal, the Gram matrix of the basis, accumulated from the unit
/// triangular top of the basis and then from the rest of it. The diagonal
/// and what is below it stay as they are.
pub open spec fn gram_factor_spec<T: ComplexField>(
    factor: Seq<Seq<T>>,
    essentials: Seq<Seq<T>>,
    n: nat,
) -> Seq<Seq<T>> {
    let rest = (essentials.len() - n) as nat;
    let top = algebra::window(essentials, 0, 0, n, n);
    let bot = algebra::window(essentials, n as int, 0, rest, n);
    let first = triangular::matmul_spec(
        factor,
        BlockStructure::UnitTriangularUpper,
        Accum::Replace,
        algebra::transpose(top, n),
        BlockStructure::UnitTriangularUpper,
        Conj::Yes,
        top,
        BlockStructure::UnitTriangularLower,
        Conj::No,
        T::one_spec(),
    );
    triangular::matmul_spec(
        first,
        BlockStructure::UnitTriangularUpper,
        Accum::Add,
        algebra::transpose(bot, n),
        BlockStructure::Rectangular,
        Conj::Yes,
        bot,
        BlockStructure::Rectangular,
        Conj::No,
        T::one_spec(),
    )
}

/// The block of a factor above and right of the split at `mid`, computed
/// from the basis: the columns of the basis left of the split, from row
/// `mid` on, against the columns right of it, whose top is unit triangular.
pub open spec fn cross_factor_spec<T: ComplexField>(
    corner: Seq<Seq<T>>,
    essentials: Seq<Seq<T>>,
    n: nat,
    mid: nat,
) -> Seq<Seq<T>> {
    let right = (n - mid) as nat;
    let rest = (essentials.len() - n) as nat;
    let left_top = algebra::window(essentials, mid as int, 0, right, mid);
    let left_bot = algebra::window(essentials, n as int, 0, rest, mid);
    let right_top = algebra::window(essentials, mid as int, mid as int, right, right);
    let right_bot = algebra::window(essentials, n as int, mid as int, rest, right);
    let first = triangular::matmul_spec(
        corner,
        BlockStructure::Rectangular,
        Accum::Replace,
        algebra::transpose(left_top, mid),
        BlockStructure::Rectangular,
        Conj::Yes,
        right_top,
        BlockStructure::UnitTriangularLower,
        Conj::No,
        T::one_spec(),
    );
    matmul::matmul_spec(
        first,
        Accum::Add,
        algebra::transpose(left_bot, mid),
        Conj::Yes,
        right_bot,
        Conj::No,
        T::one_spec(),
    )
}

/// What `upgrade_householder_factor` leaves in a factor of `n` reflections
/// whose basis is `essentials`.
///
/// Nothing changes if the block size stays the same or the factor is no
/// larger than a previous block. A factor of several new blocks is the
/// upgrade of its two diagonal parts, split at the middle block. A factor of
/// one new block is computed from the basis where the previous blocks are
/// smaller than eight; otherwise its two diagonal parts, split at the middle
/// previous block, are upgraded and the block above and right of the split
/// is computed from the basis.
pub open spec fn upgrade_spec<T: ComplexField>(
    factor: Seq<Seq<T>>,
    essentials: Seq<Seq<T>>,
    n: nat,
    blocksize: int,
    prev_blocksize: int,
) -> Seq<Seq<T>>
    decreases n,
{
    let mid = upgrade_split(n as int, blocksize, prev_blocksize);
    if blocksize == prev_blocksize || n <= prev_blocksize || blocksize <= 0 {
        factor
    } else if block_count(n as int, blocksize) <= 1 && prev_blocksize < 8 {
        gram_factor_spec(factor, essentials, n)
    } else if !(0 < mid < n) {
        factor
    } else {
        let rows = essentials.len();
        let top_left = upgrade_spec(
            algebra::window(factor, 0, 0, mid as nat, mid as nat),
            algebra::window(essentials, 0, 0, rows, mid as nat),
            mid as nat,
            blocksize,
            prev_blocksize,
        );
        let bottom_right = upgrade_spec(
            algebra::window(factor, mid, mid, (n - mid) as nat, (n - mid) as nat),
            algebra::window(essentials, mid, mid, (rows - mid) as nat, (n - mid) as nat),
            (n - mid) as nat,
            blocksize,
            prev_blocksize,
        );
        let diagonal = algebra::replace_window(
            algebra::replace_window(factor, 0, 0, top_left),
            mid,
            mid,
            bottom_right,
        );
        if block_count(n as int, blocksize) > 1 {
            diagonal
        } else {
            algebra::replace_window(
                diagonal,
                0,
                mid,
                cross_factor_spec(
                    algebra::window(factor, 0, mid, mid as nat, (n - mid) as nat),
                    essentials,
                    n,
                    mid as nat,
                ),
            )
        }
    }
}

/// The split of an upgrade lies strictly inside the factor.
pub proof fn lemma_upgrade_split(n: int, blocksize: int, prev_blocksize: int)
    requires
        blocksize != prev_blocksize,
        n > prev_blocksize,
        blocksize > 0,
        upgrade_admissible(n, blocksize, prev_blocksize),
        block_count(n, blocksize) > 1 || prev_blocksize >= 8,
    ensures
        0 < upgrade_split(n, blocksize, prev_blocksize) < n,
        upgrade_admissible(
            upgrade_split(n, blocksize, prev_blocksize),
            blocksize,
            prev_blocksize,
        ),
        upgrade_admissible(
            n - upgrade_split(n, blocksize, prev_blocksize),
            blocksize,
            prev_blocksize,
        ),
{
    let unit = if block_count(n, blocksize) > 1 {
        blocksize
    } else {
        prev_blocksize
    };
    let count = block_count(n, unit);
    if block_count(n, blocksize) <= 1 {
        assert(count > 1) by (nonlinear_arith)
            requires
                count == (n + unit - 1) / unit,
                unit >= 8,
                n > unit,
        ;
    }
    assert(count == (n + unit - 1) / unit);
    let half = count / 2;
    assert(count * unit <= n + unit - 1) by (nonlinear_arith)
        requires
            count == (n + unit - 1) / unit,
            unit > 0,
    ;
    assert(0 < half * unit && half * unit + unit <= count * unit) by (nonlinear_arith)
        requires
            half == count / 2,
            count > 1,
            unit > 0,
    ;
}

/// Upgrades the Householder factor in `householder_factor`, which holds the
/// factors of blocks of `prev_blocksize` reflections on its diagonal, to the
/// factors of blocks of `blocksize` reflections. `essentials` is the basis
/// of the reflections.
pub fn upgrade_householder_factor<T: ComplexField>(
    householder_factor: MatMut<'_, T>,
    essentials: MatRef<'_, T>,
    blocksize: usize,
    prev_blocksize: usize,
    par: Par,
)
    requires
        householder_factor.wf(),
        essentials.wf(),
        householder_factor.nrows() == householder_factor.ncols(),
        essentials.ncols() == householder_factor.ncols(),
        upgrade_admissible(
            householder_factor.nrows() as int,
            blocksize as int,
            prev_blocksize as int,
        ),
        blocksize != prev_blocksize && householder_factor.nrows() > prev_blocksize
            ==> essentials.ncols() <= essentials.nrows(),
    ensures
        householder_factor.layout.frame(
            old(householder_factor.data)@,
            final(householder_factor.data)@,
        ),
        householder_factor.layout.model(final(householder_factor.data)@) == upgrade_spec(
            householder_factor@,
            essentials@,
            householder_factor.nrows() as nat,
            blocksize as int,
            prev_blocksize as int,
        ),
        blocksize == prev_blocksize || householder_factor.nrows() <= prev_blocksize
            ==> householder_factor.layout.model(final(householder_factor.data)@)
            == householder_factor@,
    decreases householder_factor.nrows(),
{
    let ghost f0 = householder_factor@;
    let ghost data0 = householder_factor.data@;
    let ghost lay = householder_factor.layout;
    let ghost ess = essentials@;
    let mut householder_factor = householder_factor;
    let n = householder_factor.nrows();
    let m = essentials.nrows();
    proof {
        assert(lay.frame(data0, data0));
    }
    if blocksize == prev_blocksize || n <= prev_blocksize {
        return ;
    }
    let count = count_blocks(n, blocksize);
    if count <= 1 && prev_blocksize < 8 {
        let (basis_top, basis_bot) = essentials.split_at_row(n);
        triangular::matmul_with_conj(
            householder_factor.rb_mut(),
            BlockStructure::UnitTriangularUpper,
            Accum::Replace,
            basis_top.transpose(),
            BlockStructure::UnitTriangularUpper,
            Conj::Yes,
            basis_top,
            BlockStructure::UnitTriangularLower,
            Conj::No,
            T::one_impl(),
            par,
        );
        triangular::matmul_with_conj(
            householder_factor.rb_mut(),
            BlockStructure::UnitTriangularUpper,
            Accum::Add,
            basis_bot.transpose(),
            BlockStructure::Rectangular,
            Conj::Yes,
            basis_bot,
            BlockStructure::Rectangular,
            Conj::No,
            T::one_impl(),
            par,
        );
        return ;
    }
    proof {
        lemma_upgrade_split(n as int, blocksize as int, prev_blocksize as int);
    }
    let mid: usize = if count > 1 {
        (count / 2) * blocksize
    } else {
        (count_blocks(n, prev_blocksize) / 2) * prev_blocksize
    };
    let right: usize = n - mid;

    let basis_left = essentials.submatrix(0, 0, m, mid);
    let basis_right = essentials.submatrix(mid, mid, m - mid, right);

    let top_left = householder_factor.rb_mut().submatrix_mut(0, 0, mid, mid);
    let ghost tl_lay = top_left.layout;
    upgrade_householder_factor(top_left, basis_left, blocksize, prev_blocksize, par);
    let ghost data1 = householder_factor.data@;
    let ghost f1 = householder_factor@;
    proof {
        lay.lemma_window_frame(tl_lay, 0, 0, data0, data1);
        assert(algebra::window(f1, mid as int, mid as int, right as nat, right as nat)
            =~~= algebra::window(f0, mid as int, mid as int, right as nat, right as nat));
    }

    let bottom_right = householder_factor.rb_mut().submatrix_mut(mid, mid, right, right);
    let ghost br_lay = bottom_right.layout;
    upgrade_householder_factor(bottom_right, basis_right, blocksize, prev_blocksize, par);
    let ghost data2 = householder_factor.data@;
    let ghost f2 = householder_factor@;
    proof {
        lay.lemma_window_frame(br_lay, mid as int, mid as int, data1, data2);
        assert(algebra::window(f2, 0, mid as int, mid as nat, right as nat) =~~= algebra::window(
            f0,
            0,
            mid as int,
            mid as nat,
            right as nat,
        ));
    }
    if count > 1 {
        return ;
    }
    let rest: usize = m - n;
    let basis_left_top = essentials.submatrix(mid, 0, right, mid);
    let basis_left_bot = essentials.submatrix(n, 0, rest, mid);
    let basis_right_top = essentials.submatrix(mid, mid, right, right);
    let basis_right_bot = essentials.submatrix(n, mid, rest, right);

    let corner = householder_factor.rb_mut().submatrix_mut(0, mid, mid, right);
    let ghost corner_lay = corner.layout;
    let mut corner = corner;
    triangular::matmul_with_conj(
        corner.rb_mut(),
        BlockStructure::Rectangular,
        Accum::Replace,
        basis_left_top.transpose(),
        BlockStructure::Rectangular,
        Conj::Yes,
        basis_right_top,
        BlockStructure::UnitTriangularLower,
        Conj::No,
        T::one_impl(),
        par,
    );
    matmul::matmul_with_conj(
        corner.rb_mut(),
        Accum::Add,
        basis_left_bot.transpose(),
        Conj::Yes,
        basis_right_bot,
        Conj::No,
        T::one_impl(),
        par,
    );
    proof {
        lay.lemma_window_frame(corner_lay, 0, mid as int, data2, householder_factor.data@);
    }
}

} // verus!
