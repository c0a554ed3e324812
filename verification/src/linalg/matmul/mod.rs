//! Matrix products.
//!
//! An entry of a product is the sum, accumulated from the first term to the
//! last, of the products of a row of the left operand with a column of the
//! right operand. The order is part of the contract: with rounding
//! arithmetic another order gives another result.
use crate::mat::matmut::MatMut;
use crate::mat::matref::MatRef;
use crate::par::Par;
use crate::scalar::{Accum, ComplexField, Conj};
use vstd::prelude::*;

pub mod triangular;

verus! {

/// The sum of the first `n` terms `a[k] * b[k]`, each operand read through
/// its conjugation flag, accumulated from `k = 0` upwards starting at zero.
pub open spec fn inner_prod<T: ComplexField>(
    conj_a: Conj,
    a: Seq<T>,
    conj_b: Conj,
    b: Seq<T>,
    n: int,
) -> T
    decreases n,
{
    if n <= 0 {
        T::zero_spec()
    } else {
        T::add_spec(
            inner_prod(conj_a, a, conj_b, b, n - 1),
            T::mul_spec(
                crate::scalar::conj_if(conj_a, a[n - 1]),
                crate::scalar::conj_if(conj_b, b[n - 1]),
            ),
        )
    }
}

/// What a product kernel stores in a destination entry that held `dst`, for
/// the inner product `prod` and the scale `alpha`.
pub open spec fn accumulate<T: ComplexField>(accum: Accum, dst: T, alpha: T, prod: T) -> T {
    match accum {
        Accum::Replace => T::mul_spec(alpha, prod),
        Accum::Add => T::add_spec(dst, T::mul_spec(alpha, prod)),
    }
}

/// The inner product depends on the first `n` entries of its operands only.
pub proof fn lemma_inner_prod_ext<T: ComplexField>(
    conj_a: Conj,
    a: Seq<T>,
    a2: Seq<T>,
    conj_b: Conj,
    b: Seq<T>,
    b2: Seq<T>,
    n: int,
)
    requires
        forall|k: int| 0 <= k < n ==> a[k] == a2[k],
        forall|k: int| 0 <= k < n ==> b[k] == b2[k],
    ensures
        inner_prod(conj_a, a, conj_b, b, n) == inner_prod(conj_a, a2, conj_b, b2, n),
    decreases n,
{
    if n > 0 {
        lemma_inner_prod_ext(conj_a, a, a2, conj_b, b, b2, n - 1);
    }
}

/// The product of `lhs` and `rhs`, scaled by `alpha`, stored in or added to
/// `dst`: entry `(i, j)` is `accumulate` of the inner product of row `i` of
/// `lhs` and column `j` of `rhs`.
pub open spec fn matmul_spec<T: ComplexField>(
    dst: Seq<Seq<T>>,
    accum: Accum,
    lhs: Seq<Seq<T>>,
    conj_lhs: Conj,
    rhs: Seq<Seq<T>>,
    conj_rhs: Conj,
    alpha: T,
) -> Seq<Seq<T>> {
    triangular::matmul_spec(
        dst,
        triangular::BlockStructure::Rectangular,
        accum,
        lhs,
        triangular::BlockStructure::Rectangular,
        conj_lhs,
        rhs,
        triangular::BlockStructure::Rectangular,
        conj_rhs,
        alpha,
    )
}

/// Computes `alpha * op(lhs) * op(rhs)` and stores it in `dst` or adds it to
/// `dst`, where `op` conjugates an operand whose flag says so.
pub fn matmul_with_conj<T: ComplexField>(
    dst: MatMut<'_, T>,
    accum: Accum,
    lhs: MatRef<'_, T>,
    conj_lhs: Conj,
    rhs: MatRef<'_, T>,
    conj_rhs: Conj,
    alpha: T,
    par: Par,
)
    requires
        dst.wf(),
        lhs.wf(),
        rhs.wf(),
        dst.nrows() == lhs.nrows(),
        dst.ncols() == rhs.ncols(),
        lhs.ncols() == rhs.nrows(),
    ensures
        dst.layout.frame(old(dst.data)@, final(dst.data)@),
        dst.layout.model(final(dst.data)@) == matmul_spec(
            dst@,
            accum,
            lhs@,
            conj_lhs,
            rhs@,
            conj_rhs,
            alpha,
        ),
{
    triangular::matmul_with_conj(
        dst,
        triangular::BlockStructure::Rectangular,
        accum,
        lhs,
        triangular::BlockStructure::Rectangular,
        conj_lhs,
        rhs,
        triangular::BlockStructure::Rectangular,
        conj_rhs,
        alpha,
        par,
    )
}

/// Computes `alpha * lhs * rhs` and stores it in `dst` or adds it to `dst`.
pub fn matmul<T: ComplexField>(
    dst: MatMut<'_, T>,
    accum: Accum,
    lhs: MatRef<'_, T>,
    rhs: MatRef<'_, T>,
    alpha: T,
    par: Par,
)
    requires
        dst.wf(),
        lhs.wf(),
        rhs.wf(),
        dst.nrows() == lhs.nrows(),
        dst.ncols() == rhs.ncols(),
        lhs.ncols() == rhs.nrows(),
    ensures
        dst.layout.frame(old(dst.data)@, final(dst.data)@),
        dst.layout.model(final(dst.data)@) == matmul_spec(
            dst@,
            accum,
            lhs@,
            Conj::No,
            rhs@,
            Conj::No,
            alpha,
        ),
{
    matmul_with_conj(dst, accum, lhs, Conj::No, rhs, Conj::No, alpha, par)
}

} // verus!
