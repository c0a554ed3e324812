//! Kronecker product.
use crate::mat::matown::Mat;
use crate::mat::matref::MatRef;
use crate::scalar::ComplexField;
use vstd::prelude::*;

verus! {

/// The Kronecker product of `lhs`, of `lhs_ncols` columns, and `rhs`, of
/// `rhs_ncols` columns: the block `(i, j)` of the product is `rhs` times
/// the entry `(i, j)` of `lhs`.
pub open spec fn kron_spec<T: ComplexField>(
    lhs: Seq<Seq<T>>,
    lhs_ncols: nat,
    rhs: Seq<Seq<T>>,
    rhs_ncols: nat,
) -> Seq<Seq<T>> {
    Seq::new(
        lhs.len() * rhs.len(),
        |r: int|
            Seq::new(
                lhs_ncols * rhs_ncols,
                |c: int|
                    T::mul_spec(
                        lhs[r / (rhs.len() as int)][c / (rhs_ncols as int)],
                        rhs[r % (rhs.len() as int)][c % (rhs_ncols as int)],
                    ),
            ),
    )
}

/// Quotient and remainder of `a * n + b` by `n`, for `0 <= b < n`.
pub proof fn lemma_div_mod(a: int, b: int, n: int)
    requires
        0 <= a,
        0 <= b < n,
    ensures
        (a * n + b) / n == a,
        (a * n + b) % n == b,
        0 <= a * n,
        a * n + n == (a + 1) * n,
{
    assert(0 <= a * n && a * n + n == (a + 1) * n) by (nonlinear_arith)
        requires
            0 <= a,
            0 < n,
    ;
    vstd::arithmetic::div_mod::lemma_fundamental_div_mod_converse(a * n + b, n, a, b);
}

/// The Kronecker product of `lhs` and `rhs`, in a new matrix.
pub fn kron<T: ComplexField>(lhs: MatRef<'_, T>, rhs: MatRef<'_, T>) -> (r: Mat<T>)
    requires
        lhs.wf(),
        rhs.wf(),
        lhs.nrows() * rhs.nrows() <= usize::MAX,
        lhs.ncols() * rhs.ncols() <= usize::MAX,
        (lhs.nrows() * rhs.nrows()) * (lhs.ncols() * rhs.ncols()) <= usize::MAX,
    ensures
        r.wf(),
        r.nrows() == lhs.nrows() * rhs.nrows(),
        r.ncols() == lhs.ncols() * rhs.ncols(),
        r@ == kron_spec(lhs@, lhs.ncols() as nat, rhs@, rhs.ncols() as nat),
{
    let m = lhs.nrows();
    let n = lhs.ncols();
    let p = rhs.nrows();
    let q = rhs.ncols();
    let nrows: usize = m * p;
    let ncols: usize = n * q;
    let mut out = Mat::full(nrows, ncols, T::zero_impl());
    let ghost goal = kron_spec(lhs@, n as nat, rhs@, q as nat);
    let mut i: usize = 0;
    while i < m
        invariant
            i <= m,
            m == lhs.nrows(),
            n == lhs.ncols(),
            p == rhs.nrows(),
            q == rhs.ncols(),
            nrows == m * p,
            ncols == n * q,
            lhs.wf(),
            rhs.wf(),
            out.wf(),
            out.nrows() == nrows,
            out.ncols() == ncols,
            out@.len() == nrows,
            forall|r: int| 0 <= r < nrows ==> (#[trigger] out@[r]).len() == ncols,
            goal == kron_spec(lhs@, n as nat, rhs@, q as nat),
            forall|r: int, c: int|
                0 <= r < i * p && 0 <= c < ncols ==> #[trigger] out@[r][c] == goal[r][c],
        decreases m - i,
    {
        let mut k: usize = 0;
        while k < p
            invariant
                k <= p,
                i < m,
                m == lhs.nrows(),
                n == lhs.ncols(),
                p == rhs.nrows(),
                q == rhs.ncols(),
                nrows == m * p,
                ncols == n * q,
                lhs.wf(),
                rhs.wf(),
                out.wf(),
                out.nrows() == nrows,
                out.ncols() == ncols,
                out@.len() == nrows,
                forall|r: int| 0 <= r < nrows ==> (#[trigger] out@[r]).len() == ncols,
                goal == kron_spec(lhs@, n as nat, rhs@, q as nat),
                forall|r: int, c: int|
                    0 <= r < i * p + k && 0 <= c < ncols ==> #[trigger] out@[r][c] == goal[r][c],
            decreases p - k,
        {
            proof {
                lemma_div_mod(i as int, k as int, p as int);
                assert((i + 1) * p <= m * p) by (nonlinear_arith)
                    requires
                        i + 1 <= m,
                        0 <= p,
                ;
            }
            let row: usize = i * p + k;
            let mut j: usize = 0;
            while j < n
                invariant
                    j <= n,
                    i < m,
                    k < p,
                    row == i * p + k,
                    row < nrows,
                    m == lhs.nrows(),
                    n == lhs.ncols(),
                    p == rhs.nrows(),
                    q == rhs.ncols(),
                    nrows == m * p,
                    ncols == n * q,
                    lhs.wf(),
                    rhs.wf(),
                    out.wf(),
                    out.nrows() == nrows,
                    out.ncols() == ncols,
                    out@.len() == nrows,
                    forall|r: int| 0 <= r < nrows ==> (#[trigger] out@[r]).len() == ncols,
                    goal == kron_spec(lhs@, n as nat, rhs@, q as nat),
                    row as int / p as int == i,
                    row as int % p as int == k,
                    forall|r: int, c: int|
                        0 <= r < nrows && 0 <= c < ncols && (r < row || (r == row && c < j * q))
                            ==> #[trigger] out@[r][c] == goal[r][c],
                decreases n - j,
            {
                let a = lhs.read(i, j);
                let mut l: usize = 0;
                while l < q
                    invariant
                        l <= q,
                        j < n,
                        i < m,
                        k < p,
                        row == i * p + k,
                        row < nrows,
                        m == lhs.nrows(),
                        n == lhs.ncols(),
                        p == rhs.nrows(),
                        q == rhs.ncols(),
                        nrows == m * p,
                        ncols == n * q,
                        lhs.wf(),
                        rhs.wf(),
                        out.wf(),
                        out.nrows() == nrows,
                        out.ncols() == ncols,
                        out@.len() == nrows,
                        forall|r: int| 0 <= r < nrows ==> (#[trigger] out@[r]).len() == ncols,
                        goal == kron_spec(lhs@, n as nat, rhs@, q as nat),
                        a == lhs@[i as int][j as int],
                        row as int / p as int == i,
                        row as int % p as int == k,
                        forall|r: int, c: int|
                            0 <= r < nrows && 0 <= c < ncols && (r < row || (r == row && c < j
                                * q + l)) ==> #[trigger] out@[r][c] == goal[r][c],
                    decreases q - l,
                {
                    proof {
                        lemma_div_mod(j as int, l as int, q as int);
                        assert((j + 1) * q <= n * q) by (nonlinear_arith)
                            requires
                                j + 1 <= n,
                                0 <= q,
                        ;
                    }
                    let col: usize = j * q + l;
                    out.write(row, col, T::mul_impl(a, rhs.read(k, l)));
                    l += 1;
                }
                proof {
                    assert(j * q + q == (j + 1) * q) by (nonlinear_arith);
                }
                j += 1;
            }
            k += 1;
        }
        proof {
            assert(i * p + p == (i + 1) * p) by (nonlinear_arith);
        }
        i += 1;
    }
    proof {
        assert(out@ =~~= goal);
    }
    out
}

} // verus!
