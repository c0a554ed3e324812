//! Solving a linear system with a Cholesky factor.
use crate::linalg::triangular_solve as solve;
use crate::mat::matmut::MatMut;
use crate::mat::matref::MatRef;
use crate::par::Par;
use crate::scalar::{ComplexField, Conj};
use crate::algebra;
use vstd::prelude::*;

verus! {

/// The matrix `m` of `ncols` columns with every entry read through `conj`.
pub open spec fn conj_matrix<T: ComplexField>(conj: Conj, m: Seq<Seq<T>>) -> Seq<Seq<T>> {
    Seq::new(
        m.len(),
        |i: int| Seq::new(m[i].len(), |j: int| crate::scalar::conj_if(conj, m[i][j])),
    )
}

/// What `solve_in_place` leaves in `rhs`: the right-hand side read through
/// `conj_rhs`, solved with the lower triangle of the factor and then with
/// its adjoint, which is upper triangular.
pub open spec fn solve_in_place_spec<T: ComplexField>(
    cholesky_factors: Seq<Seq<T>>,
    conj_lhs: Conj,
    rhs: Seq<Seq<T>>,
    conj_rhs: Conj,
    n: nat,
) -> Seq<Seq<T>> {
    solve::solve_upper_spec(
        algebra::transpose(cholesky_factors, n),
        conj_lhs.compose_spec(Conj::Yes),
        solve::solve_lower_spec(cholesky_factors, conj_lhs, conj_matrix(conj_rhs, rhs)),
    )
}

/// Conjugates the entries of `m` in place where `conj` says so.
fn conjugate_in_place<T: ComplexField>(conj: Conj, m: MatMut<'_, T>)
    requires
        m.wf(),
    ensures
        m.layout.frame(old(m.data)@, final(m.data)@),
        m.layout.model(final(m.data)@) == conj_matrix(conj, m@),
{
    let ghost m0 = m@;
    let ghost data0 = m.data@;
    let ghost fin = final(m.data)@;
    let ghost lay = m.layout;
    let mut m = m;
    let nrows = m.nrows();
    let ncols = m.ncols();
    proof {
        assert(lay.frame(data0, data0));
    }
    if !conj.is_conj() {
        proof {
            assert(m@ =~~= conj_matrix(conj, m0));
        }
        return ;
    }
    let mut j: usize = 0;
    while j < ncols
        invariant
            j <= ncols,
            nrows == lay.nrows,
            ncols == lay.ncols,
            conj == Conj::Yes,
            m.wf(),
            m.layout == lay,
            lay.frame(data0, m.data@),
            final(m.data)@ == fin,
            m0 == lay.model(data0),
            forall|a: int, b: int|
                0 <= a < nrows && 0 <= b < ncols ==> #[trigger] m@[a][b] == (if b < j {
                    T::conj_spec(m0[a][b])
                } else {
                    m0[a][b]
                }),
        decreases ncols - j,
    {
        let mut i: usize = 0;
        while i < nrows
            invariant
                i <= nrows,
                j < ncols,
                nrows == lay.nrows,
                ncols == lay.ncols,
                m.wf(),
                m.layout == lay,
                lay.frame(data0, m.data@),
                final(m.data)@ == fin,
                m0 == lay.model(data0),
                forall|a: int, b: int|
                    0 <= a < nrows && 0 <= b < ncols ==> #[trigger] m@[a][b] == (if b < j || (b
                        == j && a < i) {
                        T::conj_spec(m0[a][b])
                    } else {
                        m0[a][b]
                    }),
            decreases nrows - i,
        {
            let x = m.read(i, j);
            m.write(i, j, T::conj_impl(x));
            i += 1;
        }
        j += 1;
    }
    proof {
        assert(m@ =~~= conj_matrix(conj, m0));
    }
}

/// Solves `op(A) X = op(rhs)` in place, where `A = L Lᴴ` and the lower
/// triangle of `cholesky_factors` holds `L`; `op` conjugates an operand
/// whose flag says so. The solution overwrites `rhs`.
pub fn solve_in_place<T: ComplexField>(
    cholesky_factors: MatRef<'_, T>,
    conj_lhs: Conj,
    rhs: MatMut<'_, T>,
    conj_rhs: Conj,
    parallelism: Par,
)
    requires
        cholesky_factors.wf(),
        rhs.wf(),
        cholesky_factors.nrows() == cholesky_factors.ncols(),
        rhs.nrows() == cholesky_factors.nrows(),
    ensures
        rhs.layout.frame(old(rhs.data)@, final(rhs.data)@),
        rhs.layout.model(final(rhs.data)@) == solve_in_place_spec(
            cholesky_factors@,
            conj_lhs,
            rhs@,
            conj_rhs,
            cholesky_factors.ncols() as nat,
        ),
{
    let ghost lay = rhs.layout;
    let ghost data0 = rhs.data@;
    let mut rhs = rhs;
    conjugate_in_place(conj_rhs, rhs.rb_mut());
    solve::solve_lower_triangular_in_place_with_conj(
        cholesky_factors,
        conj_lhs,
        rhs.rb_mut(),
        parallelism,
    );
    solve::solve_upper_triangular_in_place_with_conj(
        cholesky_factors.transpose(),
        match conj_lhs {
            Conj::No => Conj::Yes,
            Conj::Yes => Conj::No,
        },
        rhs.rb_mut(),
        parallelism,
    );
}

} // verus!
