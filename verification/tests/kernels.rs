use faer::col::colmut::ColMut;
use faer::col::colown::Col;
use faer::col::colref::ColRef;
use faer::linalg::cholesky::ldlt::update::{rank_update_step_fallback, rank_update_step_simd};
use faer::linalg::cholesky::llt::solve::solve_in_place;
use faer::linalg::householder::{
    apply_block_householder_on_the_left_in_place_scratch,
    apply_block_householder_on_the_left_in_place_with_conj,
    apply_block_householder_on_the_right_in_place_scratch,
    apply_block_householder_on_the_right_in_place_with_conj,
    apply_block_householder_sequence_on_the_left_in_place_scratch,
    apply_block_householder_sequence_on_the_left_in_place_with_conj,
    apply_block_householder_sequence_on_the_right_in_place_scratch,
    apply_block_householder_sequence_on_the_right_in_place_with_conj,
    apply_block_householder_sequence_transpose_on_the_left_in_place_scratch,
    apply_block_householder_sequence_transpose_on_the_left_in_place_with_conj,
    apply_block_householder_sequence_transpose_on_the_right_in_place_scratch,
    apply_block_householder_sequence_transpose_on_the_right_in_place_with_conj,
    apply_block_householder_transpose_on_the_left_in_place_scratch,
    apply_block_householder_transpose_on_the_left_in_place_with_conj,
    apply_block_householder_transpose_on_the_right_in_place_scratch,
    apply_block_householder_transpose_on_the_right_in_place_with_conj, make_householder_in_place,
    upgrade_householder_factor,
};
use faer::linalg::kron::kron;
use faer::linalg::matmul::triangular::{self, BlockStructure};
use faer::linalg::matmul::{matmul, matmul_with_conj};
use faer::linalg::temp_mat::{temp_mat_scratch, SizeOverflow, StackReq};
use faer::linalg::triangular_solve::{
    solve_lower_triangular_in_place_with_conj, solve_upper_triangular_in_place_with_conj,
};
use faer::mat::matmut::MatMut;
use faer::mat::matown::Mat;
use faer::mat::matref::MatRef;
use faer::par::{par_split_indices, parallelism_degree, saturating_product, Par};
use faer::scalar::{Accum, ComplexField, Conj, RealField};

/// A real element for exact arithmetic on small integers.
#[derive(Clone, Copy, Debug, PartialEq)]
struct F(f64);

impl RealField for F {
    fn zero_spec() -> Self {
        F(0.0)
    }
    fn one_spec() -> Self {
        F(1.0)
    }
    fn one_half_spec() -> Self {
        F(0.5)
    }
    fn infinity_spec() -> Self {
        F(f64::INFINITY)
    }
    fn min_positive_spec() -> Self {
        F(f64::MIN_POSITIVE)
    }
    fn add_spec(lhs: Self, rhs: Self) -> Self {
        F(lhs.0 + rhs.0)
    }
    fn sub_spec(lhs: Self, rhs: Self) -> Self {
        F(lhs.0 - rhs.0)
    }
    fn mul_spec(lhs: Self, rhs: Self) -> Self {
        F(lhs.0 * rhs.0)
    }
    fn recip_spec(value: Self) -> Self {
        F(1.0 / value.0)
    }
    fn sqrt_spec(value: Self) -> Self {
        F(value.0.sqrt())
    }
    fn hypot_spec(lhs: Self, rhs: Self) -> Self {
        F(lhs.0.hypot(rhs.0))
    }
    fn abs_spec(value: Self) -> Self {
        F(value.0.abs())
    }
    fn lt_spec(lhs: Self, rhs: Self) -> bool {
        lhs.0 < rhs.0
    }
    fn eq_spec(lhs: Self, rhs: Self) -> bool {
        lhs.0 == rhs.0
    }
    fn is_nan_spec(value: Self) -> bool {
        value.0.is_nan()
    }
    fn is_finite_spec(value: Self) -> bool {
        value.0.is_finite()
    }
    fn zero_impl() -> Self {
        F(0.0)
    }
    fn one_impl() -> Self {
        F(1.0)
    }
    fn one_half_impl() -> Self {
        F(0.5)
    }
    fn infinity_impl() -> Self {
        F(f64::INFINITY)
    }
    fn min_positive_impl() -> Self {
        F(f64::MIN_POSITIVE)
    }
    fn add_impl(lhs: Self, rhs: Self) -> Self {
        F(lhs.0 + rhs.0)
    }
    fn sub_impl(lhs: Self, rhs: Self) -> Self {
        F(lhs.0 - rhs.0)
    }
    fn mul_impl(lhs: Self, rhs: Self) -> Self {
        F(lhs.0 * rhs.0)
    }
    fn recip_impl(value: Self) -> Self {
        F(1.0 / value.0)
    }
    fn sqrt_impl(value: Self) -> Self {
        F(value.0.sqrt())
    }
    fn hypot_impl(lhs: Self, rhs: Self) -> Self {
        F(lhs.0.hypot(rhs.0))
    }
    fn abs_impl(value: Self) -> Self {
        F(value.0.abs())
    }
    fn lt_impl(lhs: Self, rhs: Self) -> bool {
        lhs.0 < rhs.0
    }
    fn eq_impl(lhs: Self, rhs: Self) -> bool {
        lhs.0 == rhs.0
    }
    fn is_nan_impl(value: Self) -> bool {
        value.0.is_nan()
    }
    fn is_finite_impl(value: Self) -> bool {
        value.0.is_finite()
    }
}

/// A complex element.
#[derive(Clone, Copy, Debug, PartialEq)]
struct Z {
    re: f64,
    im: f64,
}

fn z(re: f64, im: f64) -> Z {
    Z { re, im }
}

fn r(re: f64) -> Z {
    Z { re, im: 0.0 }
}

impl ComplexField for Z {
    type Real = F;

    fn simd_capable_spec() -> bool {
        false
    }
    fn zero_spec() -> Self {
        Self::zero_impl()
    }
    fn one_spec() -> Self {
        Self::one_impl()
    }
    fn infinity_spec() -> Self {
        Self::infinity_impl()
    }
    fn from_real_spec(value: F) -> Self {
        Self::from_real_impl(value)
    }
    fn real_part_spec(value: Self) -> F {
        Self::real_part_impl(value)
    }
    fn conj_spec(value: Self) -> Self {
        Self::conj_impl(value)
    }
    fn neg_spec(value: Self) -> Self {
        Self::neg_impl(value)
    }
    fn add_spec(lhs: Self, rhs: Self) -> Self {
        Self::add_impl(lhs, rhs)
    }
    fn sub_spec(lhs: Self, rhs: Self) -> Self {
        Self::sub_impl(lhs, rhs)
    }
    fn mul_spec(lhs: Self, rhs: Self) -> Self {
        Self::mul_impl(lhs, rhs)
    }
    fn mul_real_spec(lhs: Self, rhs: F) -> Self {
        Self::mul_real_impl(lhs, rhs)
    }
    fn mul_add_spec(a: Self, b: Self, c: Self) -> Self {
        Self::mul_add_impl(a, b, c)
    }
    fn recip_spec(value: Self) -> Self {
        Self::recip_impl(value)
    }
    fn abs_spec(value: Self) -> F {
        Self::abs_impl(value)
    }
    fn abs2_spec(value: Self) -> F {
        Self::abs2_impl(value)
    }
    fn is_nan_spec(value: Self) -> bool {
        Self::is_nan_impl(value)
    }
    fn is_finite_spec(value: Self) -> bool {
        Self::is_finite_impl(value)
    }
    fn simd_capable() -> bool {
        false
    }
    fn zero_impl() -> Self {
        z(0.0, 0.0)
    }
    fn one_impl() -> Self {
        z(1.0, 0.0)
    }
    fn infinity_impl() -> Self {
        z(f64::INFINITY, f64::INFINITY)
    }
    fn from_real_impl(value: F) -> Self {
        z(value.0, 0.0)
    }
    fn real_part_impl(value: Self) -> F {
        F(value.re)
    }
    fn conj_impl(value: Self) -> Self {
        z(value.re, -value.im)
    }
    fn neg_impl(value: Self) -> Self {
        z(-value.re, -value.im)
    }
    fn add_impl(lhs: Self, rhs: Self) -> Self {
        z(lhs.re + rhs.re, lhs.im + rhs.im)
    }
    fn sub_impl(lhs: Self, rhs: Self) -> Self {
        z(lhs.re - rhs.re, lhs.im - rhs.im)
    }
    fn mul_impl(lhs: Self, rhs: Self) -> Self {
        z(lhs.re * rhs.re - lhs.im * rhs.im, lhs.re * rhs.im + lhs.im * rhs.re)
    }
    fn mul_real_impl(lhs: Self, rhs: F) -> Self {
        z(lhs.re * rhs.0, lhs.im * rhs.0)
    }
    fn mul_add_impl(a: Self, b: Self, c: Self) -> Self {
        z(
            a.re.mul_add(b.re, (-a.im).mul_add(b.im, c.re)),
            a.re.mul_add(b.im, a.im.mul_add(b.re, c.im)),
        )
    }
    fn recip_impl(value: Self) -> Self {
        if !value.re.is_finite() || !value.im.is_finite() {
            return z(0.0, 0.0);
        }
        let d = value.re * value.re + value.im * value.im;
        z(value.re / d, -value.im / d)
    }
    fn abs_impl(value: Self) -> F {
        F(value.re.hypot(value.im))
    }
    fn abs2_impl(value: Self) -> F {
        F(value.re * value.re + value.im * value.im)
    }
    fn is_nan_impl(value: Self) -> bool {
        value.re.is_nan() || value.im.is_nan()
    }
    fn is_finite_impl(value: Self) -> bool {
        value.re.is_finite() && value.im.is_finite()
    }
}

/// A matrix given row by row, stored column after column.
fn cm(rows: &[&[f64]]) -> Vec<Z> {
    let nrows = rows.len();
    let ncols = if nrows == 0 { 0 } else { rows[0].len() };
    let mut v = vec![r(0.0); nrows * ncols];
    for i in 0..nrows {
        for j in 0..ncols {
            v[i + j * nrows] = r(rows[i][j]);
        }
    }
    v
}

#[test]
fn conj_flags_compose_like_exclusive_or() {
    assert_eq!(Conj::No.compose(Conj::No), Conj::No);
    assert_eq!(Conj::No.compose(Conj::Yes), Conj::Yes);
    assert_eq!(Conj::Yes.compose(Conj::No), Conj::Yes);
    assert_eq!(Conj::Yes.compose(Conj::Yes), Conj::No);
    assert!(Conj::Yes.is_conj());
    assert!(!Conj::No.is_conj());
}

#[test]
fn parallelism_handle_degree_and_split() {
    assert_eq!(Par::Sequential.degree(), 1);
    assert_eq!(Par::Rayon(0).degree(), 1);
    assert_eq!(Par::Rayon(6).degree(), 6);
    assert_eq!(parallelism_degree(Par::Rayon(3)), 3);
    assert_eq!(Par::Rayon(8).split(2), Par::Rayon(4));
    assert_eq!(Par::Rayon(3).split(2), Par::Sequential);
    assert_eq!(Par::Rayon(8).split(0), Par::Sequential);
    assert_eq!(Par::Sequential.split(2), Par::Sequential);
}

#[test]
fn chunks_tile_the_items() {
    // 10 items in 4 chunks: 3, 3, 2, 2
    assert_eq!(par_split_indices(10, 0, 4), (0, 3));
    assert_eq!(par_split_indices(10, 1, 4), (3, 3));
    assert_eq!(par_split_indices(10, 2, 4), (6, 2));
    assert_eq!(par_split_indices(10, 3, 4), (8, 2));
    assert_eq!(par_split_indices(2, 2, 3), (2, 0));
    assert_eq!(par_split_indices(0, 0, 1), (0, 0));
}

#[test]
fn saturating_product_saturates() {
    assert_eq!(saturating_product(6, 7), 42);
    assert_eq!(saturating_product(usize::MAX, 2), usize::MAX);
    assert_eq!(saturating_product(usize::MAX, 0), 0);
}

#[test]
fn scratch_is_one_element_per_entry_of_the_temporary() {
    assert_eq!(temp_mat_scratch(3, 5), Ok(StackReq { size: 15 }));
    assert_eq!(temp_mat_scratch(usize::MAX, 2), Err(SizeOverflow {}));
    assert_eq!(temp_mat_scratch(0, usize::MAX), Ok(StackReq { size: 0 }));
    let expected = Ok(StackReq { size: 8 });
    assert_eq!(apply_block_householder_on_the_left_in_place_scratch(100, 4, 2), expected);
    assert_eq!(apply_block_householder_transpose_on_the_left_in_place_scratch(100, 4, 2), expected);
    assert_eq!(apply_block_householder_on_the_right_in_place_scratch(100, 4, 2), expected);
    assert_eq!(
        apply_block_householder_transpose_on_the_right_in_place_scratch(100, 4, 2),
        expected
    );
    assert_eq!(
        apply_block_householder_sequence_on_the_left_in_place_scratch(100, 4, 2),
        expected
    );
    assert_eq!(
        apply_block_householder_sequence_transpose_on_the_left_in_place_scratch(100, 4, 2),
        expected
    );
    assert_eq!(
        apply_block_householder_sequence_on_the_right_in_place_scratch(100, 4, 2),
        expected
    );
    assert_eq!(
        apply_block_householder_sequence_transpose_on_the_right_in_place_scratch(100, 4, 2),
        expected
    );
    assert_eq!(
        apply_block_householder_on_the_left_in_place_scratch(1, usize::MAX, 2),
        Err(SizeOverflow {})
    );
}

#[test]
fn views_read_what_the_layout_says() {
    // [[1, 2, 3], [4, 5, 6]]
    let data = cm(&[&[1.0, 2.0, 3.0], &[4.0, 5.0, 6.0]]);
    let m = MatRef::from_column_major_slice(&data, 2, 3);
    assert_eq!((m.nrows(), m.ncols()), (2, 3));
    assert_eq!((m.row_stride(), m.col_stride()), (1, 2));
    assert_eq!(m.read(1, 2), r(6.0));
    assert_eq!(m.read(0, 1), r(2.0));

    let t = m.transpose();
    assert_eq!((t.nrows(), t.ncols()), (3, 2));
    assert_eq!(t.read(2, 1), r(6.0));
    assert_eq!(t.read(1, 0), r(2.0));

    let s = m.submatrix(1, 1, 1, 2);
    assert_eq!((s.nrows(), s.ncols()), (1, 2));
    assert_eq!(s.read(0, 0), r(5.0));
    assert_eq!(s.read(0, 1), r(6.0));

    let rev = m.reverse_rows_and_cols();
    assert_eq!(rev.read(0, 0), r(6.0));
    assert_eq!(rev.read(1, 2), r(1.0));
    assert_eq!(m.reverse_rows().read(0, 1), r(5.0));
    assert_eq!(m.reverse_cols().read(0, 0), r(3.0));

    let (top, bot) = m.split_at_row(1);
    assert_eq!(top.read(0, 2), r(3.0));
    assert_eq!(bot.read(0, 0), r(4.0));
    let (left, right) = m.split_at_col(2);
    assert_eq!(left.ncols(), 2);
    assert_eq!(right.read(1, 0), r(6.0));
    assert_eq!(m.subrows(1, 1).read(0, 1), r(5.0));
    assert_eq!(m.subcols(2, 1).read(0, 0), r(3.0));

    let col = m.col(1);
    assert_eq!(col.nrows(), 2);
    assert_eq!(col.read(0), r(2.0));
    assert_eq!(col.read(1), r(5.0));

    let rows = [r(1.0), r(2.0), r(3.0), r(4.0), r(5.0), r(6.0)];
    let rm = MatRef::from_row_major_slice(&rows, 2, 3);
    assert_eq!(rm.read(1, 0), r(4.0));
    assert_eq!(rm.read(0, 2), r(3.0));
    assert_eq!(rm.row_stride(), 3);

    let empty = m.submatrix(2, 3, 0, 0);
    assert_eq!((empty.nrows(), empty.ncols()), (0, 0));
}

#[test]
fn mutable_views_write_through() {
    let mut data = cm(&[&[1.0, 2.0], &[3.0, 4.0], &[5.0, 6.0]]);
    {
        let mut m = MatMut::from_column_major_slice_mut(&mut data, 3, 2);
        m.write(2, 0, r(50.0));
        assert_eq!(m.read(2, 0), r(50.0));
        let mut sub = m.rb_mut().submatrix_mut(1, 1, 2, 1);
        sub.write(0, 0, r(40.0));
        let mut t = m.rb_mut().transpose_mut();
        t.write(1, 0, r(20.0));
        let mut rev = m.rb_mut().reverse_rows_mut();
        rev.write(0, 1, r(60.0));
        let mut c = m.rb_mut().col_mut(0);
        c.write(0, r(10.0));
        let mut rows = m.rb_mut().subrows_mut(1, 1);
        rows.write(0, 0, r(30.0));
        let mut cols = m.rb_mut().subcols_mut(1, 1);
        assert_eq!(cols.read(1, 0), r(40.0));
        cols.write(1, 0, r(41.0));
        assert_eq!(m.rb().read(2, 0), r(50.0));
        assert_eq!(m.into_const().read(0, 0), r(10.0));
    }
    assert_eq!(data, cm(&[&[10.0, 20.0], &[30.0, 41.0], &[50.0, 60.0]]));
}

#[test]
fn owned_matrix_reads_and_writes() {
    let mut m = Mat::full(2, 3, r(7.0));
    assert_eq!((m.nrows(), m.ncols()), (2, 3));
    m.write(1, 2, r(9.0));
    assert_eq!(m.read(1, 2), r(9.0));
    assert_eq!(m.read(0, 2), r(7.0));
    assert_eq!(m.as_ref().read(1, 2), r(9.0));
    m.as_mut().write(0, 0, r(1.0));
    assert_eq!(m.read(0, 0), r(1.0));
}

#[test]
fn product_accumulates_in_order() {
    // [[1, 2], [3, 4]] * [[5, 6], [7, 8]] = [[19, 22], [43, 50]]
    let a = cm(&[&[1.0, 2.0], &[3.0, 4.0]]);
    let b = cm(&[&[5.0, 6.0], &[7.0, 8.0]]);
    let mut c = cm(&[&[100.0, 100.0], &[100.0, 100.0]]);
    matmul(
        MatMut::from_column_major_slice_mut(&mut c, 2, 2),
        Accum::Replace,
        MatRef::from_column_major_slice(&a, 2, 2),
        MatRef::from_column_major_slice(&b, 2, 2),
        r(1.0),
        Par::Sequential,
    );
    assert_eq!(c, cm(&[&[19.0, 22.0], &[43.0, 50.0]]));
    matmul(
        MatMut::from_column_major_slice_mut(&mut c, 2, 2),
        Accum::Add,
        MatRef::from_column_major_slice(&a, 2, 2),
        MatRef::from_column_major_slice(&b, 2, 2),
        r(2.0),
        Par::Sequential,
    );
    assert_eq!(c, cm(&[&[57.0, 66.0], &[129.0, 150.0]]));
}

#[test]
fn product_conjugates_the_flagged_operand() {
    let a = vec![z(1.0, 2.0)];
    let b = vec![z(3.0, -1.0)];
    let mut c = vec![z(0.0, 0.0)];
    // conj(1 + 2i) * (3 - i) = (1 - 2i)(3 - i) = 1 - 7i
    matmul_with_conj(
        MatMut::from_column_major_slice_mut(&mut c, 1, 1),
        Accum::Replace,
        MatRef::from_column_major_slice(&a, 1, 1),
        Conj::Yes,
        MatRef::from_column_major_slice(&b, 1, 1),
        Conj::No,
        r(1.0),
        Par::Sequential,
    );
    assert_eq!(c[0], z(1.0, -7.0));
    // (1 + 2i) * conj(3 - i) = (1 + 2i)(3 + i) = 1 + 7i
    matmul_with_conj(
        MatMut::from_column_major_slice_mut(&mut c, 1, 1),
        Accum::Replace,
        MatRef::from_column_major_slice(&a, 1, 1),
        Conj::No,
        MatRef::from_column_major_slice(&b, 1, 1),
        Conj::Yes,
        r(1.0),
        Par::Sequential,
    );
    assert_eq!(c[0], z(1.0, 7.0));
}

#[test]
fn triangular_product_reads_and_writes_by_structure() {
    // the stored upper triangle and diagonal of `a` are ignored:
    // unit lower [[1, 0], [3, 1]] * [[5, 6], [7, 8]] = [[5, 6], [22, 26]]
    let a = cm(&[&[9.0, 9.0], &[3.0, 9.0]]);
    let b = cm(&[&[5.0, 6.0], &[7.0, 8.0]]);
    let mut c = cm(&[&[0.0, 0.0], &[0.0, 0.0]]);
    triangular::matmul_with_conj(
        MatMut::from_column_major_slice_mut(&mut c, 2, 2),
        BlockStructure::Rectangular,
        Accum::Replace,
        MatRef::from_column_major_slice(&a, 2, 2),
        BlockStructure::UnitTriangularLower,
        Conj::No,
        MatRef::from_column_major_slice(&b, 2, 2),
        BlockStructure::Rectangular,
        Conj::No,
        r(1.0),
        Par::Sequential,
    );
    assert_eq!(c, cm(&[&[5.0, 6.0], &[22.0, 26.0]]));

    // a strictly upper destination keeps its diagonal and lower part
    let mut d = cm(&[&[-1.0, -2.0], &[-3.0, -4.0]]);
    triangular::matmul_with_conj(
        MatMut::from_column_major_slice_mut(&mut d, 2, 2),
        BlockStructure::UnitTriangularUpper,
        Accum::Replace,
        MatRef::from_column_major_slice(&b, 2, 2),
        BlockStructure::Rectangular,
        Conj::No,
        MatRef::from_column_major_slice(&b, 2, 2),
        BlockStructure::TriangularUpper,
        Conj::No,
        r(1.0),
        Par::Sequential,
    );
    // entry (0, 1) of [[5, 6], [7, 8]] * [[5, 6], [0, 8]] is 5 * 6 + 6 * 8 = 78
    assert_eq!(d, cm(&[&[-1.0, 78.0], &[-3.0, -4.0]]));
    assert_eq!(BlockStructure::TriangularLower.transpose(), BlockStructure::TriangularUpper);
    assert!(BlockStructure::StrictTriangularUpper.is_stored(0, 1));
    assert!(!BlockStructure::StrictTriangularUpper.is_stored(1, 1));
    assert!(BlockStructure::UnitTriangularLower.has_unit_diagonal());
}

#[test]
fn triangular_solves_substitute() {
    // [[2, 0], [1, 4]] x = [2, 9]  =>  x = [1, 2]
    let l = cm(&[&[2.0, 77.0], &[1.0, 4.0]]);
    let mut b = cm(&[&[2.0], &[9.0]]);
    solve_lower_triangular_in_place_with_conj(
        MatRef::from_column_major_slice(&l, 2, 2),
        Conj::No,
        MatMut::from_column_major_slice_mut(&mut b, 2, 1),
        Par::Sequential,
    );
    assert_eq!(b, cm(&[&[1.0], &[2.0]]));

    // [[2, 1], [0, 4]] x = [4, 8]  =>  x = [1, 2]
    let u = cm(&[&[2.0, 1.0], &[77.0, 4.0]]);
    let mut b = cm(&[&[4.0, 8.0], &[8.0, 16.0]]);
    solve_upper_triangular_in_place_with_conj(
        MatRef::from_column_major_slice(&u, 2, 2),
        Conj::No,
        MatMut::from_column_major_slice_mut(&mut b, 2, 2),
        Par::Sequential,
    );
    assert_eq!(b, cm(&[&[1.0, 2.0], &[2.0, 4.0]]));
}

#[test]
fn cholesky_solve_solves() {
    // A = L Lᵀ with L = [[2, 0], [1, 1]]: A = [[4, 2], [2, 2]]; A x = [8, 6] => x = [1, 2]
    let l = cm(&[&[2.0, 0.0], &[1.0, 1.0]]);
    let mut b = cm(&[&[8.0], &[6.0]]);
    solve_in_place(
        MatRef::from_column_major_slice(&l, 2, 2),
        Conj::No,
        MatMut::from_column_major_slice_mut(&mut b, 2, 1),
        Conj::No,
        Par::Sequential,
    );
    assert_eq!(b, cm(&[&[1.0], &[2.0]]));

    // a conjugated right-hand side: L = [2], rhs = [4 + 8i] => x = conj(rhs) / 4 = 1 - 2i
    let l = vec![z(2.0, 0.0)];
    let mut b = vec![z(4.0, 8.0)];
    solve_in_place(
        MatRef::from_column_major_slice(&l, 1, 1),
        Conj::No,
        MatMut::from_column_major_slice_mut(&mut b, 1, 1),
        Conj::Yes,
        Par::Sequential,
    );
    assert_eq!(b[0], z(1.0, -2.0));
}

#[test]
fn kronecker_product_of_small_matrices() {
    // [[1, 2]] ⊗ [[1], [10]] = [[1, 2], [10, 20]]
    let a = cm(&[&[1.0, 2.0]]);
    let b = cm(&[&[1.0], &[10.0]]);
    let k = kron(MatRef::from_column_major_slice(&a, 1, 2), MatRef::from_column_major_slice(&b, 2, 1));
    assert_eq!((k.nrows(), k.ncols()), (2, 2));
    assert_eq!(k.read(0, 0), r(1.0));
    assert_eq!(k.read(0, 1), r(2.0));
    assert_eq!(k.read(1, 0), r(10.0));
    assert_eq!(k.read(1, 1), r(20.0));

    let mut col = vec![r(2.0), r(3.0)];
    let c = ColMut::from_slice_mut(&mut col);
    let k = c.kron(MatRef::from_column_major_slice(&a, 1, 2));
    assert_eq!((k.nrows(), k.ncols()), (2, 2));
    assert_eq!(k.read(1, 1), r(6.0));
    assert_eq!(k.read(0, 1), r(4.0));
}

#[test]
fn column_view_api() {
    let mut data = vec![r(1.0), r(2.0), r(3.0), r(4.0)];
    let mut col = ColMut::from_slice_mut(&mut data);
    assert_eq!(col.nrows(), 4);
    assert_eq!(col.ncols(), 1);
    assert_eq!(col.shape(), (4, 1));
    assert_eq!(col.row_stride(), 1);
    assert_eq!(col.read(2), r(3.0));
    col.write(2, r(30.0));
    assert_eq!(col.as_ref().read(2), r(30.0));
    assert_eq!(*col.rb_mut().get(2), r(30.0));
    *col.rb_mut().get_mut(0) = r(10.0);
    assert_eq!(col.rb().iter(), vec![r(10.0), r(2.0), r(30.0), r(4.0)]);
    assert_eq!(col.rb_mut().reverse_rows().read(0), r(4.0));
    assert_eq!(col.rb_mut().subrows(1, 2).iter(), vec![r(2.0), r(30.0)]);
    let (top, bot) = col.rb_mut().split_at_row(1);
    assert_eq!(top.nrows(), 1);
    assert_eq!(bot.read(0), r(2.0));
    assert_eq!(col.rb_mut().as_row_shape(4).nrows(), 4);
    assert_eq!(col.rb_mut().as_dyn_rows().nrows(), 4);
    assert_eq!(col.rb_mut().as_dyn_stride().row_stride(), 1);
    assert!(col.rb_mut().try_as_col_major().is_some());
    assert!(col.rb_mut().reverse_rows_mut().try_as_col_major_mut().is_none());
    assert_eq!(col.rb_mut().as_mat().read(3, 0), r(4.0));
    assert_eq!(col.rb_mut().transpose().read(1), r(2.0));
    assert_eq!(col.rb_mut().as_diagonal().column_vector().read(1), r(2.0));
    col.rb_mut().subrows_mut(3, 1).write(0, r(40.0));
    col.rb_mut().reverse_rows_mut().write(2, r(20.0));
    col.rb_mut().as_mat_mut().write(0, 0, r(11.0));
    col.rb_mut().as_2d_mut().write(0, 0, r(12.0));
    col.rb_mut().transpose_mut().transpose_mut().write(0, r(13.0));
    col.rb_mut().as_diagonal_mut().column_vector_mut().write(0, r(14.0));
    col.rb_mut().column_vector_as_diagonal_mut().column_vector_mut().write(0, r(15.0));
    col.rb_mut().as_row_shape_mut(4).as_dyn_rows_mut().as_dyn_stride_mut().write(0, r(16.0));
    assert_eq!(col.as_mut().into_const().iter(), vec![r(16.0), r(20.0), r(30.0), r(40.0)]);

    assert_eq!(col.sum(), r(106.0));
    assert_eq!(col.norm_max(), F(40.0));
    assert!(!col.has_nan());
    assert!(col.is_all_finite());
    assert_eq!(col.to_owned().into_vec(), vec![r(16.0), r(20.0), r(30.0), r(40.0)]);

    let other = [r(3.0), r(4.0), r(0.0), r(0.0)];
    col.copy_from(ColRef::from_slice(&other));
    assert_eq!(col.norm_l2(), F(5.0));
    col.fill(r(2.0));
    assert_eq!(col.rb().sum(), r(8.0));
    assert_eq!(col.rb().norm_l2(), F(4.0));
    assert_eq!(col.rb().norm_max(), F(2.0));
    col.fill_zero();
    assert_eq!(data, vec![r(0.0); 4]);

    let mut bad = vec![r(1.0), r(f64::NAN), r(f64::INFINITY)];
    let col = ColMut::from_slice_mut(&mut bad);
    assert!(col.has_nan());
    assert!(!col.is_all_finite());
}

#[test]
fn owned_column_api() {
    let mut col = Col::<Z>::zeros(3);
    assert_eq!(col.nrows(), 3);
    assert_eq!(col.ncols(), 1);
    assert_eq!(col.shape(), (3, 1));
    assert_eq!(col.row_stride(), 1);
    assert_eq!(col.iter(), vec![r(0.0); 3]);
    assert_eq!(Col::<Z>::ones(2).iter(), vec![r(1.0); 2]);
    assert_eq!(Col::full(2, 7u8).into_vec(), vec![7u8, 7u8]);

    col.write(1, r(5.0));
    assert_eq!(col.read(1), r(5.0));
    assert_eq!(*col.get(1), r(5.0));
    col.as_mut().write(0, r(3.0));
    col.subrows_mut(2, 1).write(0, r(4.0));
    assert_eq!(col.as_ref().iter(), vec![r(3.0), r(5.0), r(4.0)]);
    col.reverse_rows_mut().write(0, r(-4.0));
    col.as_row_shape_mut(3).write(1, r(0.0));
    col.as_dyn_rows_mut().write(0, r(3.0));
    col.as_dyn_stride_mut().write(0, r(3.0));
    col.try_as_col_major_mut().unwrap().write(0, r(3.0));
    col.as_mat_mut().write(0, 0, r(3.0));
    col.transpose_mut().transpose_mut().write(0, r(3.0));
    col.as_diagonal_mut().column_vector_mut().write(0, r(3.0));
    assert_eq!(col.iter(), vec![r(3.0), r(0.0), r(-4.0)]);

    assert_eq!(col.sum(), r(-1.0));
    assert_eq!(col.norm_l2(), F(5.0));
    assert_eq!(col.squared_norm_l2(), F(25.0));
    assert_eq!(col.norm_l1(), F(7.0));
    assert_eq!(col.norm_max(), F(4.0));

    assert_eq!(col.reverse_rows().read(0), r(-4.0));
    assert_eq!(col.subrows(1, 2).iter(), vec![r(0.0), r(-4.0)]);
    let (top, bot) = col.split_at_row(2);
    assert_eq!((top.nrows(), bot.nrows()), (2, 1));
    assert_eq!(col.transpose().ncols(), 3);
    assert_eq!(col.transpose().nrows(), 1);
    assert_eq!(col.as_row_shape(3).nrows(), 3);
    assert_eq!(col.as_dyn_rows().nrows(), 3);
    assert_eq!(col.as_dyn_stride().row_stride(), 1);
    assert!(col.try_as_col_major().is_some());
    assert_eq!(col.as_mat().ncols(), 1);
    assert_eq!(col.as_diagonal().column_vector().nrows(), 3);
    assert_eq!(col.cloned().into_vec(), col.to_owned().into_vec());

    col.resize_with(5, |i| r(i as f64));
    assert_eq!(col.iter(), vec![r(3.0), r(0.0), r(-4.0), r(3.0), r(4.0)]);
    col.resize_with(1, |_| r(9.0));
    assert_eq!(col.iter(), vec![r(3.0)]);
    col.reserve(100);
    assert!(col.try_reserve(10).is_ok());
    assert_eq!(col.nrows(), 1);
    col.resize_with(4, |i| r(i as f64));
    col.truncate(2);
    assert_eq!(col.iter(), vec![r(3.0), r(1.0)]);
    let other = [r(8.0), r(9.0)];
    col.copy_from(ColRef::from_slice(&other));
    assert_eq!(col.iter(), vec![r(8.0), r(9.0)]);

    let col = col.into_row_shape(2);
    let row = col.into_transpose();
    assert_eq!(row.ncols(), 2);
    let diag = row.into_transpose().into_diagonal();
    assert_eq!(diag.into_column_vector().into_vec(), vec![r(8.0), r(9.0)]);
    assert_eq!(Col::from_fn(3, |i| 2 * i).into_vec(), vec![0, 2, 4]);
    assert_eq!(Col::from_vec(vec![1, 2]).into_vec(), vec![1, 2]);
}

/// A basis of `n` reflectors of `m` rows and the factor of the block.
fn reflectors(m: usize, n: usize, seed: u64) -> (Vec<Z>, Vec<Z>) {
    let mut state = seed;
    let mut next = move || {
        state = state.wrapping_mul(6364136223846793005).wrapping_add(1442695040888963407);
        ((state >> 33) as f64) / ((1u64 << 31) as f64) - 0.5
    };
    let mut basis = vec![r(0.0); m * n];
    let mut factor = vec![r(0.0); n * n];
    for j in 0..n {
        let mut head = z(next(), next());
        let mut tail: Vec<Z> = (j + 1..m).map(|_| z(next(), next())).collect();
        let (tau, _) = make_householder_in_place(&mut head, ColMut::from_slice_mut(&mut tail));
        basis[j + j * m] = r(1.0);
        for i in j + 1..m {
            basis[i + j * m] = tail[i - j - 1];
        }
        factor[j + j * n] = tau;
    }
    upgrade_householder_factor(
        MatMut::from_column_major_slice_mut(&mut factor, n, n),
        MatRef::from_column_major_slice(&basis, m, n),
        n,
        1,
        Par::Sequential,
    );
    (basis, factor)
}

fn operand(m: usize, k: usize) -> Vec<Z> {
    (0..m * k).map(|t| z((t % 7) as f64 - 3.0, (t % 5) as f64 - 2.0)).collect()
}

fn transposed(a: &[Z], nrows: usize, ncols: usize) -> Vec<Z> {
    let mut t = vec![r(0.0); a.len()];
    for i in 0..nrows {
        for j in 0..ncols {
            t[j + i * ncols] = a[i + j * nrows];
        }
    }
    t
}

fn close(a: &[Z], b: &[Z]) -> bool {
    a.len() == b.len()
        && (0..a.len()).all(|t| Z::abs_impl(Z::sub_impl(a[t], b[t])).0 <= 1e-12 * (1.0 + Z::abs_impl(a[t]).0))
}

#[test]
fn block_and_its_transpose_undo_each_other() {
    let (m, n, k) = (7, 3, 4);
    let (basis, factor) = reflectors(m, n, 11);
    let a = operand(m, k);
    let mut x = a.clone();
    let mut stack = vec![r(0.0); n * k];
    // the transpose of the block with the conjugated basis is the inverse of
    // the block: applying both gives the operand back
    apply_block_householder_on_the_left_in_place_with_conj(
        MatRef::from_column_major_slice(&basis, m, n),
        MatRef::from_column_major_slice(&factor, n, n),
        Conj::No,
        MatMut::from_column_major_slice_mut(&mut x, m, k),
        Par::Sequential,
        &mut stack,
    );
    assert!(!close(&x, &a));
    apply_block_householder_transpose_on_the_left_in_place_with_conj(
        MatRef::from_column_major_slice(&basis, m, n),
        MatRef::from_column_major_slice(&factor, n, n),
        Conj::Yes,
        MatMut::from_column_major_slice_mut(&mut x, m, k),
        Par::Sequential,
        &mut stack,
    );
    assert!(close(&x, &a));
}

#[test]
fn right_application_is_left_application_of_the_transpose() {
    let (m, n, k) = (6, 2, 3);
    let (basis, factor) = reflectors(m, n, 12);
    let a = operand(m, k);
    let at = transposed(&a, m, k);
    let mut stack = vec![r(0.0); n * k];

    let mut left = a.clone();
    apply_block_householder_transpose_on_the_left_in_place_with_conj(
        MatRef::from_column_major_slice(&basis, m, n),
        MatRef::from_column_major_slice(&factor, n, n),
        Conj::No,
        MatMut::from_column_major_slice_mut(&mut left, m, k),
        Par::Sequential,
        &mut stack,
    );
    let mut right = at.clone();
    apply_block_householder_on_the_right_in_place_with_conj(
        MatRef::from_column_major_slice(&basis, m, n),
        MatRef::from_column_major_slice(&factor, n, n),
        Conj::No,
        MatMut::from_column_major_slice_mut(&mut right, k, m),
        Par::Sequential,
        &mut stack,
    );
    assert_eq!(transposed(&right, k, m), left);

    let mut left = a.clone();
    apply_block_householder_on_the_left_in_place_with_conj(
        MatRef::from_column_major_slice(&basis, m, n),
        MatRef::from_column_major_slice(&factor, n, n),
        Conj::No,
        MatMut::from_column_major_slice_mut(&mut left, m, k),
        Par::Sequential,
        &mut stack,
    );
    let mut right = at.clone();
    apply_block_householder_transpose_on_the_right_in_place_with_conj(
        MatRef::from_column_major_slice(&basis, m, n),
        MatRef::from_column_major_slice(&factor, n, n),
        Conj::No,
        MatMut::from_column_major_slice_mut(&mut right, k, m),
        Par::Sequential,
        &mut stack,
    );
    assert_eq!(transposed(&right, k, m), left);
}

/// The factors of the blocks of a sequence, side by side.
fn sequence(m: usize, size: usize, bs: usize, seed: u64) -> (Vec<Z>, Vec<Z>) {
    let (basis, _) = reflectors(m, size, seed);
    let scales = {
        // the scales of the single reflectors stand on the diagonal
        let mut state = seed;
        let mut next = move || {
            state = state.wrapping_mul(6364136223846793005).wrapping_add(1442695040888963407);
            ((state >> 33) as f64) / ((1u64 << 31) as f64) - 0.5
        };
        let mut taus = vec![];
        for j in 0..size {
            let mut head = z(next(), next());
            let mut tail: Vec<Z> = (j + 1..m).map(|_| z(next(), next())).collect();
            let (tau, _) = make_householder_in_place(&mut head, ColMut::from_slice_mut(&mut tail));
            taus.push(tau);
        }
        taus
    };
    let mut factors = vec![r(0.0); bs * size];
    let mut start = 0;
    while start < size {
        let len = bs.min(size - start);
        let mut f = vec![r(0.0); len * len];
        for j in 0..len {
            f[j + j * len] = scales[start + j];
        }
        upgrade_householder_factor(
            MatMut::from_column_major_slice_mut(&mut f, len, len),
            MatRef::from_column_major_slice(&basis, m, size).submatrix(start, start, m - start, len),
            len,
            1,
            Par::Sequential,
        );
        for j in 0..len {
            for i in 0..len {
                factors[i + (start + j) * bs] = f[i + j * len];
            }
        }
        start += len;
    }
    (basis, factors)
}

#[test]
fn sequence_with_a_short_last_block() {
    // five reflectors in blocks of two: the blocks hold 2, 2 and 1
    let (m, size, bs, k) = (8, 5, 2, 3);
    let (basis, factors) = sequence(m, size, bs, 13);
    let a = operand(m, k);
    let mut stack = vec![r(0.0); bs * k];

    let mut driven = a.clone();
    apply_block_householder_sequence_on_the_left_in_place_with_conj(
        MatRef::from_column_major_slice(&basis, m, size),
        MatRef::from_column_major_slice(&factors, bs, size),
        Conj::No,
        MatMut::from_column_major_slice_mut(&mut driven, m, k),
        Par::Sequential,
        &mut stack,
    );
    let mut manual = a.clone();
    for (start, len) in [(4usize, 1usize), (2, 2), (0, 2)] {
        apply_block_householder_on_the_left_in_place_with_conj(
            MatRef::from_column_major_slice(&basis, m, size).submatrix(start, start, m - start, len),
            MatRef::from_column_major_slice(&factors, bs, size).submatrix(0, start, len, len),
            Conj::No,
            MatMut::from_column_major_slice_mut(&mut manual, m, k).subrows_mut(start, m - start),
            Par::Sequential,
            &mut stack,
        );
    }
    assert_eq!(driven, manual);

    // the transposed sequence with the conjugated basis undoes the sequence
    apply_block_householder_sequence_transpose_on_the_left_in_place_with_conj(
        MatRef::from_column_major_slice(&basis, m, size),
        MatRef::from_column_major_slice(&factors, bs, size),
        Conj::Yes,
        MatMut::from_column_major_slice_mut(&mut driven, m, k),
        Par::Sequential,
        &mut stack,
    );
    assert!(close(&driven, &a));
}

#[test]
fn sequence_on_the_right_is_the_transposed_sequence_on_the_left() {
    let (m, size, bs, k) = (7, 4, 2, 3);
    let (basis, factors) = sequence(m, size, bs, 14);
    let a = operand(m, k);
    let at = transposed(&a, m, k);
    let mut stack = vec![r(0.0); bs * k];

    let mut left = a.clone();
    apply_block_householder_sequence_transpose_on_the_left_in_place_with_conj(
        MatRef::from_column_major_slice(&basis, m, size),
        MatRef::from_column_major_slice(&factors, bs, size),
        Conj::No,
        MatMut::from_column_major_slice_mut(&mut left, m, k),
        Par::Sequential,
        &mut stack,
    );
    let mut right = at.clone();
    apply_block_householder_sequence_on_the_right_in_place_with_conj(
        MatRef::from_column_major_slice(&basis, m, size),
        MatRef::from_column_major_slice(&factors, bs, size),
        Conj::No,
        MatMut::from_column_major_slice_mut(&mut right, k, m),
        Par::Sequential,
        &mut stack,
    );
    assert_eq!(transposed(&right, k, m), left);

    let mut left = a.clone();
    apply_block_householder_sequence_on_the_left_in_place_with_conj(
        MatRef::from_column_major_slice(&basis, m, size),
        MatRef::from_column_major_slice(&factors, bs, size),
        Conj::No,
        MatMut::from_column_major_slice_mut(&mut left, m, k),
        Par::Sequential,
        &mut stack,
    );
    let mut right = at.clone();
    apply_block_householder_sequence_transpose_on_the_right_in_place_with_conj(
        MatRef::from_column_major_slice(&basis, m, size),
        MatRef::from_column_major_slice(&factors, bs, size),
        Conj::No,
        MatMut::from_column_major_slice_mut(&mut right, k, m),
        Par::Sequential,
        &mut stack,
    );
    assert_eq!(transposed(&right, k, m), left);
}

#[test]
fn column_ranges_give_the_same_result_as_the_whole() {
    let (m, n, k) = (9, 3, 10);
    let (basis, factor) = reflectors(m, n, 15);
    let a = operand(m, k);
    let mut stack = vec![r(0.0); n * k];

    let mut whole = a.clone();
    apply_block_householder_on_the_left_in_place_with_conj(
        MatRef::from_column_major_slice(&basis, m, n),
        MatRef::from_column_major_slice(&factor, n, n),
        Conj::No,
        MatMut::from_column_major_slice_mut(&mut whole, m, k),
        Par::Sequential,
        &mut stack,
    );

    // with no threshold and four threads the columns are worked on in four
    // ranges
    gemm::set_threading_threshold(0);
    let mut ranges = a.clone();
    apply_block_householder_on_the_left_in_place_with_conj(
        MatRef::from_column_major_slice(&basis, m, n),
        MatRef::from_column_major_slice(&factor, n, n),
        Conj::No,
        MatMut::from_column_major_slice_mut(&mut ranges, m, k),
        Par::Rayon(4),
        &mut stack,
    );
    assert_eq!(ranges, whole);
    assert!(ranges != a);
}

#[test]
fn vectorised_step_fuses_its_multiply_adds() {
    // p * l = (1 + 2^-30)(1 - 2^-30) = 1 - 2^-60, which rounds to 1
    let eps = (2.0f64).powi(-30);
    let p = [r(1.0 + eps)];
    let beta = [r(0.0)];

    let mut l = vec![r(1.0 - eps), r(2.0)];
    let mut w = vec![r(-1.0), r(3.0)];
    rank_update_step_fallback(
        ColMut::from_slice_mut(&mut l),
        MatMut::from_column_major_slice_mut(&mut w, 2, 1),
        ColRef::from_slice(&p),
        ColRef::from_slice(&beta),
    );
    assert_eq!(w[0], r(0.0));
    assert_eq!(l[0], r(1.0 - eps));

    let mut l = vec![r(1.0 - eps), r(2.0)];
    let mut w = vec![r(-1.0), r(3.0)];
    rank_update_step_simd(
        ColMut::from_slice_mut(&mut l),
        MatMut::from_column_major_slice_mut(&mut w, 2, 1),
        ColRef::from_slice(&p),
        ColRef::from_slice(&beta),
        0,
    );
    assert_eq!(w[0], r(-(2.0f64).powi(-60)));
    assert_eq!(l[0], r(1.0 - eps));
}

#[test]
fn step_updates_rows_column_after_column() {
    // row (l, w0, w1) = (1, 10, 100) with p = (2, 3), beta = (4, 5):
    // w0 = 2 * 1 + 10 = 12, l = 4 * 12 + 1 = 49, w1 = 3 * 49 + 100 = 247,
    // l = 5 * 247 + 49 = 1284
    let p = [r(2.0), r(3.0)];
    let beta = [r(4.0), r(5.0)];
    let mut l = vec![r(1.0), r(7.0)];
    let mut w = vec![r(10.0), r(100.0)];
    rank_update_step_fallback(
        ColMut::from_slice_mut(&mut l),
        MatMut::from_row_major_slice_mut(&mut w, 1, 2),
        ColRef::from_slice(&p),
        ColRef::from_slice(&beta),
    );
    assert_eq!(w, vec![r(12.0), r(247.0)]);
    assert_eq!(l, vec![r(1284.0), r(7.0)]);
}

#[test]
fn factor_of_a_block_is_the_gram_matrix_of_its_basis() {
    // v0 = [1; 2; 3], v1 = [0; 1; 4]: v0ᴴ v1 = 2 * 1 + 3 * 4 = 14
    let basis = cm(&[&[1.0, 0.0], &[2.0, 1.0], &[3.0, 4.0]]);
    let mut factor = cm(&[&[7.0, 0.0], &[-1.0, 8.0]]);
    upgrade_householder_factor(
        MatMut::from_column_major_slice_mut(&mut factor, 2, 2),
        MatRef::from_column_major_slice(&basis, 3, 2),
        2,
        1,
        Par::Sequential,
    );
    assert_eq!(factor, cm(&[&[7.0, 14.0], &[-1.0, 8.0]]));

    // a factor no larger than a previous block is left alone
    let mut small = cm(&[&[7.0, 0.0], &[-1.0, 8.0]]);
    upgrade_householder_factor(
        MatMut::from_column_major_slice_mut(&mut small, 2, 2),
        MatRef::from_column_major_slice(&basis, 3, 2),
        4,
        2,
        Par::Sequential,
    );
    assert_eq!(small, cm(&[&[7.0, 0.0], &[-1.0, 8.0]]));
}

#[test]
fn block_of_two_reflections_exact_values() {
    // V = [[1, 0], [1, 1]] and T = [[2, 1], [0, 2]] applied to x = [4; 2]:
    // Vᴴ x = [6; 2], T⁻¹ [6; 2] = [2.5; 1], x - V [2.5; 1] = [1.5; -1.5]
    let basis = cm(&[&[1.0, 0.0], &[1.0, 1.0]]);
    let factor = cm(&[&[2.0, 1.0], &[0.0, 2.0]]);
    let mut x = cm(&[&[4.0], &[2.0]]);
    let mut stack = vec![r(0.0); 2];
    apply_block_householder_on_the_left_in_place_with_conj(
        MatRef::from_column_major_slice(&basis, 2, 2),
        MatRef::from_column_major_slice(&factor, 2, 2),
        Conj::No,
        MatMut::from_column_major_slice_mut(&mut x, 2, 1),
        Par::Sequential,
        &mut stack,
    );
    assert_eq!(x, cm(&[&[1.5], &[-1.5]]));

    // the transposed block solves with the transposed factor:
    // Tᵀ y = [6; 2] gives y = [3; -0.5], x - V y = [1; -0.5]
    let mut x = cm(&[&[4.0], &[2.0]]);
    apply_block_householder_transpose_on_the_left_in_place_with_conj(
        MatRef::from_column_major_slice(&basis, 2, 2),
        MatRef::from_column_major_slice(&factor, 2, 2),
        Conj::No,
        MatMut::from_column_major_slice_mut(&mut x, 2, 1),
        Par::Sequential,
        &mut stack,
    );
    assert_eq!(x, cm(&[&[1.0], &[-0.5]]));
}

#[test]
fn conjugate_adapters_carry_the_flag() {
    let x = [z(1.0, 2.0), z(3.0, -1.0)];
    let y = [z(2.0, 0.0), z(0.0, 1.0)];
    let col = ColRef::from_slice(&x);

    let (same, flag) = col.conjugate();
    assert_eq!(flag, Conj::Yes);
    assert_eq!(same.iter(), x.to_vec());
    assert_eq!(col.canonical().iter(), x.to_vec());

    // xᴴ y = conj(1 + 2i) * 2 + conj(3 - i) * i = 2 - 4i + 3i - 1 = 1 - i
    let (row, flag) = col.adjoint();
    assert_eq!(flag, Conj::Yes);
    assert_eq!((row.nrows(), row.ncols()), (1, 2));
    let mut dot = vec![z(0.0, 0.0)];
    matmul_with_conj(
        MatMut::from_column_major_slice_mut(&mut dot, 1, 1),
        Accum::Replace,
        row.transpose().as_mat().transpose(),
        flag,
        ColRef::from_slice(&y).as_mat(),
        Conj::No,
        r(1.0),
        Par::Sequential,
    );
    assert_eq!(dot[0], z(1.0, -1.0));

    let mut data = x.to_vec();
    {
        let mut view = ColMut::from_slice_mut(&mut data);
        let (read, flag) = view.rb_mut().conjugate();
        assert_eq!((read.read(0), flag), (z(1.0, 2.0), Conj::Yes));
        assert_eq!(view.rb_mut().canonical().read(1), z(3.0, -1.0));
        let (row, flag) = view.rb_mut().adjoint();
        assert_eq!((row.read(1), flag), (z(3.0, -1.0), Conj::Yes));
        let (mut m, flag) = view.rb_mut().conjugate_mut();
        assert_eq!(flag, Conj::Yes);
        m.write(0, z(5.0, 5.0));
        view.rb_mut().canonical_mut().write(1, z(6.0, 6.0));
        let (c, flag) = view.rb_mut().canonicalize_mut();
        assert_eq!((c.read(0), flag), (z(5.0, 5.0), Conj::No));
        let (row, flag) = view.rb_mut().adjoint_mut();
        assert_eq!((row.read(1), flag), (z(6.0, 6.0), Conj::Yes));
        row.transpose_mut().write(1, z(7.0, 7.0));
    }
    assert_eq!(data, vec![z(5.0, 5.0), z(7.0, 7.0)]);

    let mut owned = Col::from_vec(x.to_vec());
    assert_eq!(owned.conjugate().1, Conj::Yes);
    assert_eq!(owned.conjugate().0.read(0), z(1.0, 2.0));
    assert_eq!(owned.canonical().read(1), z(3.0, -1.0));
    assert_eq!(owned.adjoint().1, Conj::Yes);
    assert_eq!(owned.adjoint().0.ncols(), 2);
    let (mut m, flag) = owned.conjugate_mut();
    assert_eq!(flag, Conj::Yes);
    m.write(0, z(8.0, 0.0));
    owned.canonical_mut().write(1, z(9.0, 0.0));
    let (row, flag) = owned.adjoint_mut();
    assert_eq!((row.read(0), flag), (z(8.0, 0.0), Conj::Yes));
    assert_eq!(owned.into_vec(), vec![z(8.0, 0.0), z(9.0, 0.0)]);
}

#[test]
fn views_say_how_they_are_laid_out() {
    let data = [r(1.0), r(2.0), r(3.0), r(4.0), r(5.0), r(6.0)];
    let col = ColRef::from_slice(&data);
    let (top, bot) = col.split_at_row(2);
    assert_eq!((top.row_stride(), bot.row_stride()), (1, 1));
    assert_eq!(col.subrows(1, 3).row_stride(), 1);
    // reversing negates the stride, whatever the number of rows
    assert_eq!(col.reverse_rows().row_stride(), -1);
    assert_eq!(col.reverse_rows().reverse_rows().row_stride(), 1);
    assert_eq!(col.subrows(0, 1).reverse_rows().row_stride(), -1);
    assert_eq!(col.subrows(0, 0).reverse_rows().row_stride(), -1);
    assert_eq!(col.as_mat().row_stride(), 1);

    let m = MatRef::from_column_major_slice(&data, 1, 6);
    assert_eq!((m.row_stride(), m.col_stride()), (1, 1));
    let m = MatRef::from_row_major_slice(&data, 2, 3);
    assert_eq!((m.row_stride(), m.col_stride()), (3, 1));
    assert_eq!(m.col(1).reverse_rows().row_stride(), -3);
    assert_eq!(m.reverse_rows().row_stride(), -3);
    assert_eq!(m.reverse_cols().col_stride(), -1);
    let both = m.reverse_rows_and_cols();
    assert_eq!((both.row_stride(), both.col_stride()), (-3, -1));

    let mut buf = data.to_vec();
    let view = ColMut::from_slice_mut(&mut buf).reverse_rows_mut();
    let (top, bot) = view.split_at_row_mut(4);
    assert_eq!((top.row_stride(), bot.row_stride()), (-1, -1));
    let owned = Mat::full(3, 2, r(0.0));
    assert_eq!((owned.as_ref().row_stride(), owned.as_ref().col_stride()), (1, 3));
}
