//! Matrix products whose operands or destination are triangular.
use crate::algebra;
use crate::mat::matmut::MatMut;
use crate::mat::matref::MatRef;
use crate::par::Par;
use crate::scalar::{apply_conj, Accum, ComplexField, Conj};
use vstd::prelude::*;

verus! {

/// Which part of a matrix a kernel reads or writes, and what it takes the
/// rest to be.
#[derive(Clone, Copy, Debug, PartialEq, Eq, Structural)]
pub enum BlockStructure {
    /// Every entry is read or written.
    Rectangular,
    /// The entries on and below the diagonal; those above it are zero.
    TriangularLower,
    /// The entries below the diagonal; the others are zero.
    StrictTriangularLower,
    /// The entries below the diagonal; the diagonal is one and the entries
    /// above it are zero.
    UnitTriangularLower,
    /// The entries on and above the diagonal; those below it are zero.
    TriangularUpper,
    /// The entries above the diagonal; the others are zero.
    StrictTriangularUpper,
    /// The entries above the diagonal; the diagonal is one and the entries
    /// below it are zero.
    UnitTriangularUpper,
}

impl BlockStructure {
    /// Whether the entry `(i, j)` is stored: read from an operand, written in
    /// a destination.
    pub open spec fn stores(self, i: int, j: int) -> bool {
        match self {
            BlockStructure::Rectangular => true,
            BlockStructure::TriangularLower => i >= j,
            BlockStructure::StrictTriangularLower => i > j,
            BlockStructure::UnitTriangularLower => i > j,
            BlockStructure::TriangularUpper => i <= j,
            BlockStructure::StrictTriangularUpper => i < j,
            BlockStructure::UnitTriangularUpper => i < j,
        }
    }

    /// Whether the diagonal is taken to be one.
    pub open spec fn unit_diagonal(self) -> bool {
        self == BlockStructure::UnitTriangularLower || self == BlockStructure::UnitTriangularUpper
    }

    /// Whether the entry `(i, j)` is stored.
    pub fn is_stored(self, i: usize, j: usize) -> (r: bool)
        ensures
            r == self.stores(i as int, j as int),
    {
        match self {
            BlockStructure::Rectangular => true,
            BlockStructure::TriangularLower => i >= j,
            BlockStructure::StrictTriangularLower => i > j,
            BlockStructure::UnitTriangularLower => i > j,
            BlockStructure::TriangularUpper => i <= j,
            BlockStructure::StrictTriangularUpper => i < j,
            BlockStructure::UnitTriangularUpper => i < j,
        }
    }

    /// Whether the diagonal is taken to be one.
    pub fn has_unit_diagonal(self) -> (r: bool)
        ensures
            r == self.unit_diagonal(),
    {
        match self {
            BlockStructure::UnitTriangularLower => true,
            BlockStructure::UnitTriangularUpper => true,
            _ => false,
        }
    }

    /// The structure of the transposed matrix.
    pub open spec fn transpose_spec(self) -> BlockStructure {
        match self {
            BlockStructure::Rectangular => BlockStructure::Rectangular,
            BlockStructure::TriangularLower => BlockStructure::TriangularUpper,
            BlockStructure::StrictTriangularLower => BlockStructure::StrictTriangularUpper,
            BlockStructure::UnitTriangularLower => BlockStructure::UnitTriangularUpper,
            BlockStructure::TriangularUpper => BlockStructure::TriangularLower,
            BlockStructure::StrictTriangularUpper => BlockStructure::StrictTriangularLower,
            BlockStructure::UnitTriangularUpper => BlockStructure::UnitTriangularLower,
        }
    }

    /// The structure of the transposed matrix.
    pub fn transpose(self) -> (r: BlockStructure)
        ensures
            r == self.transpose_spec(),
    {
        match self {
            BlockStructure::Rectangular => BlockStructure::Rectangular,
            BlockStructure::TriangularLower => BlockStructure::TriangularUpper,
            BlockStructure::StrictTriangularLower => BlockStructure::StrictTriangularUpper,
            BlockStructure::UnitTriangularLower => BlockStructure::UnitTriangularUpper,
            BlockStructure::TriangularUpper => BlockStructure::TriangularLower,
            BlockStructure::StrictTriangularUpper => BlockStructure::StrictTriangularLower,
            BlockStructure::UnitTriangularUpper => BlockStructure::UnitTriangularLower,
        }
    }
}

/// The entry `(i, j)` of `m` as an operand of structure `structure` shows it.
pub open spec fn entry<T: ComplexField>(
    structure: BlockStructure,
    m: Seq<Seq<T>>,
    i: int,
    j: int,
) -> T {
    if structure.stores(i, j) {
        m[i][j]
    } else if i == j && structure.unit_diagonal() {
        T::one_spec()
    } else {
        T::zero_spec()
    }
}

/// Row `i` of `m` under `structure`, `n` entries long.
pub open spec fn row_of<T: ComplexField>(
    structure: BlockStructure,
    m: Seq<Seq<T>>,
    i: int,
    n: nat,
) -> Seq<T> {
    Seq::new(n, |k: int| entry(structure, m, i, k))
}

/// Column `j` of `m` under `structure`, `n` entries long.
pub open spec fn col_of<T: ComplexField>(
    structure: BlockStructure,
    m: Seq<Seq<T>>,
    j: int,
    n: nat,
) -> Seq<T> {
    Seq::new(n, |k: int| entry(structure, m, k, j))
}

/// The product of `lhs` and `rhs`, each read under its structure and through
/// its conjugation flag, scaled by `alpha` and stored in or added to the
/// entries of `dst` that `dst_structure` stores. The other entries of `dst`
/// stay as they are.
pub open spec fn matmul_spec<T: ComplexField>(
    dst: Seq<Seq<T>>,
    dst_structure: BlockStructure,
    accum: Accum,
    lhs: Seq<Seq<T>>,
    lhs_structure: BlockStructure,
    conj_lhs: Conj,
    rhs: Seq<Seq<T>>,
    rhs_structure: BlockStructure,
    conj_rhs: Conj,
    alpha: T,
) -> Seq<Seq<T>> {
    Seq::new(
        dst.len(),
        |i: int|
            Seq::new(
                dst[i].len(),
                |j: int|
                    if dst_structure.stores(i, j) {
                        super::accumulate(
                            accum,
                            dst[i][j],
                            alpha,
                            super::inner_prod(
                                conj_lhs,
                                row_of(lhs_structure, lhs, i, rhs.len()),
                                conj_rhs,
                                col_of(rhs_structure, rhs, j, rhs.len()),
                                rhs.len() as int,
                            ),
                        )
                    } else {
                        dst[i][j]
                    },
            ),
    )
}

/// The columns of a product with a rectangular destination and a
/// rectangular right operand are independent of each other: the product of
/// a range of columns is that range of columns of the product.
pub proof fn lemma_matmul_columns<T: ComplexField>(
    dst: Seq<Seq<T>>,
    accum: Accum,
    lhs: Seq<Seq<T>>,
    lhs_structure: BlockStructure,
    conj_lhs: Conj,
    rhs: Seq<Seq<T>>,
    conj_rhs: Conj,
    alpha: T,
    start: int,
    len: nat,
    nrows: nat,
    ncols: nat,
    depth: nat,
)
    requires
        algebra::is_matrix(dst, nrows, ncols),
        algebra::is_matrix(rhs, depth, ncols),
        0 <= start,
        start + len <= ncols,
    ensures
        matmul_spec(
            algebra::window(dst, 0, start, nrows, len),
            BlockStructure::Rectangular,
            accum,
            lhs,
            lhs_structure,
            conj_lhs,
            algebra::window(rhs, 0, start, depth, len),
            BlockStructure::Rectangular,
            conj_rhs,
            alpha,
        ) == algebra::window(
            matmul_spec(
                dst,
                BlockStructure::Rectangular,
                accum,
                lhs,
                lhs_structure,
                conj_lhs,
                rhs,
                BlockStructure::Rectangular,
                conj_rhs,
                alpha,
            ),
            0,
            start,
            nrows,
            len,
        ),
{
    let part_dst = algebra::window(dst, 0, start, nrows, len);
    let part_rhs = algebra::window(rhs, 0, start, depth, len);
    let part = matmul_spec(
        part_dst,
        BlockStructure::Rectangular,
        accum,
        lhs,
        lhs_structure,
        conj_lhs,
        part_rhs,
        BlockStructure::Rectangular,
        conj_rhs,
        alpha,
    );
    let whole = matmul_spec(
        dst,
        BlockStructure::Rectangular,
        accum,
        lhs,
        lhs_structure,
        conj_lhs,
        rhs,
        BlockStructure::Rectangular,
        conj_rhs,
        alpha,
    );
    assert forall|i: int, j: int| 0 <= i < nrows && 0 <= j < len implies part[i][j]
        == whole[i][start + j] by {
        super::lemma_inner_prod_ext(
            conj_lhs,
            row_of(lhs_structure, lhs, i, depth),
            row_of(lhs_structure, lhs, i, depth),
            conj_rhs,
            col_of(BlockStructure::Rectangular, part_rhs, j, depth),
            col_of(BlockStructure::Rectangular, rhs, start + j, depth),
            depth as int,
        );
    }
    assert(part =~~= algebra::window(whole, 0, start, nrows, len));
}

/// Reads the entry `(i, j)` of `m` under `structure`.
fn read_entry<T: ComplexField>(structure: BlockStructure, m: &MatRef<'_, T>, i: usize, j: usize) -> (r:
    T)
    requires
        m.wf(),
        i < m.nrows(),
        j < m.ncols(),
    ensures
        r == entry(structure, m@, i as int, j as int),
{
    if structure.is_stored(i, j) {
        m.read(i, j)
    } else if i == j && structure.has_unit_diagonal() {
        T::one_impl()
    } else {
        T::zero_impl()
    }
}

/// Computes `alpha * op(lhs) * op(rhs)`, the operands read under their
/// structures, and stores it in or adds it to the part of `dst` that
/// `dst_structure` stores.
pub fn matmul_with_conj<T: ComplexField>(
    dst: MatMut<'_, T>,
    dst_structure: BlockStructure,
    accum: Accum,
    lhs: MatRef<'_, T>,
    lhs_structure: BlockStructure,
    conj_lhs: Conj,
    rhs: MatRef<'_, T>,
    rhs_structure: BlockStructure,
    conj_rhs: Conj,
    alpha: T,
    par: Par,
)
    requires
        dst.wf(),
        lhs.wf(),
        rhs.wf(),
        dst.nrows() == lhs.nrows(),
        dst.ncols() == rhs.ncols(),
        lhs.ncols() == rhs.nrows(),
    ensures
        dst.layout.frame(old(dst.data)@, final(dst.data)@),
        dst.layout.model(final(dst.data)@) == matmul_spec(
            dst@,
            dst_structure,
            accum,
            lhs@,
            lhs_structure,
            conj_lhs,
            rhs@,
            rhs_structure,
            conj_rhs,
            alpha,
        ),
{
    let ghost d0 = dst@;
    let ghost data0 = dst.data@;
    let ghost fin = final(dst.data)@;
    let ghost lay = dst.layout;
    let ghost goal = matmul_spec(
        d0,
        dst_structure,
        accum,
        lhs@,
        lhs_structure,
        conj_lhs,
        rhs@,
        rhs_structure,
        conj_rhs,
        alpha,
    );
    let mut dst = dst;
    let m = dst.nrows();
    let n = dst.ncols();
    let depth = rhs.nrows();
    let mut j: usize = 0;
    while j < n
        invariant
            j <= n,
            m == lay.nrows,
            n == lay.ncols,
            depth == rhs.nrows(),
            depth == lhs.ncols(),
            m == lhs.nrows(),
            n == rhs.ncols(),
            lhs.wf(),
            rhs.wf(),
            dst.wf(),
            dst.layout == lay,
            lay.frame(data0, dst.data@),
            final(dst.data)@ == fin,
            d0 == lay.model(data0),
            goal == matmul_spec(
                d0,
                dst_structure,
                accum,
                lhs@,
                lhs_structure,
                conj_lhs,
                rhs@,
                rhs_structure,
                conj_rhs,
                alpha,
            ),
            forall|a: int, b: int|
                0 <= a < m && 0 <= b < n ==> #[trigger] dst@[a][b] == (if b < j {
                    goal[a][b]
                } else {
                    d0[a][b]
                }),
        decreases n - j,
    {
        let mut i: usize = 0;
        while i < m
            invariant
                i <= m,
                j < n,
                m == lay.nrows,
                n == lay.ncols,
                depth == rhs.nrows(),
                depth == lhs.ncols(),
                m == lhs.nrows(),
                n == rhs.ncols(),
                lhs.wf(),
                rhs.wf(),
                dst.wf(),
                dst.layout == lay,
                lay.frame(data0, dst.data@),
                final(dst.data)@ == fin,
                d0 == lay.model(data0),
                goal == matmul_spec(
                    d0,
                    dst_structure,
                    accum,
                    lhs@,
                    lhs_structure,
                    conj_lhs,
                    rhs@,
                    rhs_structure,
                    conj_rhs,
                    alpha,
                ),
                forall|a: int, b: int|
                    0 <= a < m && 0 <= b < n ==> #[trigger] dst@[a][b] == (if b < j || (b == j
                        && a < i) {
                        goal[a][b]
                    } else {
                        d0[a][b]
                    }),
            decreases m - i,
        {
            if dst_structure.is_stored(i, j) {
                let ghost row = row_of(lhs_structure, lhs@, i as int, depth as nat);
                let ghost col = col_of(rhs_structure, rhs@, j as int, depth as nat);
                let mut acc = T::zero_impl();
                let mut k: usize = 0;
                while k < depth
                    invariant
                        k <= depth,
                        i < m,
                        j < n,
                        depth == rhs.nrows(),
                        depth == lhs.ncols(),
                        m == lhs.nrows(),
                        n == rhs.ncols(),
                        lhs.wf(),
                        rhs.wf(),
                        row == row_of(lhs_structure, lhs@, i as int, depth as nat),
                        col == col_of(rhs_structure, rhs@, j as int, depth as nat),
                        acc == super::inner_prod(conj_lhs, row, conj_rhs, col, k as int),
                    decreases depth - k,
                {
                    let a = apply_conj(conj_lhs, read_entry(lhs_structure, &lhs, i, k));
                    let b = apply_conj(conj_rhs, read_entry(rhs_structure, &rhs, k, j));
                    acc = T::add_impl(acc, T::mul_impl(a, b));
                    k += 1;
                }
                let scaled = T::mul_impl(alpha, acc);
                let value = match accum {
                    Accum::Replace => scaled,
                    Accum::Add => T::add_impl(dst.read(i, j), scaled),
                };
                dst.write(i, j, value);
            }
            i += 1;
        }
        j += 1;
    }
    proof {
        assert(dst@ =~~= goal);
    }
}

} // verus!
