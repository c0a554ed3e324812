use faer::col::colmut::ColMut;
use faer::linalg::cholesky::ldlt::update::rank_r_update_clobber;
use faer::linalg::householder::{
    apply_block_householder_on_the_left_in_place_with_conj,
    apply_block_householder_sequence_on_the_left_in_place_with_conj, make_householder_in_place,
    upgrade_householder_factor,
};
use faer::mat::matmut::MatMut;
use faer::mat::matref::MatRef;
use faer::par::Par;
use faer::scalar::{ComplexField, Conj, RealField};
use rand::rngs::StdRng;
use rand::SeedableRng;
use rand_distr::{Distribution, StandardNormal};

#[derive(Clone, Copy, Debug, PartialEq)]
struct R(f64);

impl RealField for R {
    fn zero_impl() -> Self {
        R(0.0)
    }
    fn one_impl() -> Self {
        R(1.0)
    }
    fn one_half_impl() -> Self {
        R(0.5)
    }
    fn infinity_impl() -> Self {
        R(f64::INFINITY)
    }
    fn min_positive_impl() -> Self {
        R(f64::MIN_POSITIVE)
    }
    fn add_impl(lhs: Self, rhs: Self) -> Self {
        R(lhs.0 + rhs.0)
    }
    fn sub_impl(lhs: Self, rhs: Self) -> Self {
        R(lhs.0 - rhs.0)
    }
    fn mul_impl(lhs: Self, rhs: Self) -> Self {
        R(lhs.0 * rhs.0)
    }
    fn recip_impl(value: Self) -> Self {
        R(1.0 / value.0)
    }
    fn sqrt_impl(value: Self) -> Self {
        R(value.0.sqrt())
    }
    fn hypot_impl(lhs: Self, rhs: Self) -> Self {
        R(lhs.0.hypot(rhs.0))
    }
    fn abs_impl(value: Self) -> Self {
        R(value.0.abs())
    }
    fn lt_impl(lhs: Self, rhs: Self) -> bool {
        lhs.0 < rhs.0
    }
    fn eq_impl(lhs: Self, rhs: Self) -> bool {
        lhs.0 == rhs.0
    }
    fn is_nan_impl(value: Self) -> bool {
        value.0.is_nan()
    }
    fn is_finite_impl(value: Self) -> bool {
        value.0.is_finite()
    }
    fn zero_spec() -> Self {
        Self::zero_impl()
    }
    fn one_spec() -> Self {
        Self::one_impl()
    }
    fn one_half_spec() -> Self {
        Self::one_half_impl()
    }
    fn infinity_spec() -> Self {
        Self::infinity_impl()
    }
    fn min_positive_spec() -> Self {
        Self::min_positive_impl()
    }
    fn add_spec(lhs: Self, rhs: Self) -> Self {
        Self::add_impl(lhs, rhs)
    }
    fn sub_spec(lhs: Self, rhs: Self) -> Self {
        Self::sub_impl(lhs, rhs)
    }
    fn mul_spec(lhs: Self, rhs: Self) -> Self {
        Self::mul_impl(lhs, rhs)
    }
    fn recip_spec(value: Self) -> Self {
        Self::recip_impl(value)
    }
    fn sqrt_spec(value: Self) -> Self {
        Self::sqrt_impl(value)
    }
    fn hypot_spec(lhs: Self, rhs: Self) -> Self {
        Self::hypot_impl(lhs, rhs)
    }
    fn abs_spec(value: Self) -> Self {
        Self::abs_impl(value)
    }
    fn lt_spec(lhs: Self, rhs: Self) -> bool {
        Self::lt_impl(lhs, rhs)
    }
    fn eq_spec(lhs: Self, rhs: Self) -> bool {
        Self::eq_impl(lhs, rhs)
    }
    fn is_nan_spec(value: Self) -> bool {
        Self::is_nan_impl(value)
    }
    fn is_finite_spec(value: Self) -> bool {
        Self::is_finite_impl(value)
    }
}

#[derive(Clone, Copy, Debug, PartialEq)]
struct C {
    re: f64,
    im: f64,
}

fn c(re: f64, im: f64) -> C {
    C { re, im }
}

impl ComplexField for C {
    type Real = R;

    fn simd_capable() -> bool {
        true
    }
    fn zero_impl() -> Self {
        c(0.0, 0.0)
    }
    fn one_impl() -> Self {
        c(1.0, 0.0)
    }
    fn infinity_impl() -> Self {
        c(f64::INFINITY, f64::INFINITY)
    }
    fn from_real_impl(value: R) -> Self {
        c(value.0, 0.0)
    }
    fn real_part_impl(value: Self) -> R {
        R(value.re)
    }
    fn conj_impl(value: Self) -> Self {
        c(value.re, -value.im)
    }
    fn neg_impl(value: Self) -> Self {
        c(-value.re, -value.im)
    }
    fn add_impl(lhs: Self, rhs: Self) -> Self {
        c(lhs.re + rhs.re, lhs.im + rhs.im)
    }
    fn sub_impl(lhs: Self, rhs: Self) -> Self {
        c(lhs.re - rhs.re, lhs.im - rhs.im)
    }
    fn mul_impl(lhs: Self, rhs: Self) -> Self {
        c(lhs.re * rhs.re - lhs.im * rhs.im, lhs.re * rhs.im + lhs.im * rhs.re)
    }
    fn mul_real_impl(lhs: Self, rhs: R) -> Self {
        c(lhs.re * rhs.0, lhs.im * rhs.0)
    }
    fn mul_add_impl(a: Self, b: Self, c_: Self) -> Self {
        c(
            a.re.mul_add(b.re, (-a.im).mul_add(b.im, c_.re)),
            a.re.mul_add(b.im, a.im.mul_add(b.re, c_.im)),
        )
    }
    fn recip_impl(value: Self) -> Self {
        if value.re.is_nan() || value.im.is_nan() {
            c(f64::NAN, f64::NAN)
        } else if value.re == 0.0 && value.im == 0.0 {
            c(f64::INFINITY, f64::INFINITY)
        } else if !value.re.is_finite() || !value.im.is_finite() {
            c(0.0, 0.0)
        } else {
            let d = value.re * value.re + value.im * value.im;
            c(value.re / d, -value.im / d)
        }
    }
    fn abs_impl(value: Self) -> R {
        R(value.re.hypot(value.im))
    }
    fn abs2_impl(value: Self) -> R {
        R(value.re * value.re + value.im * value.im)
    }
    fn is_nan_impl(value: Self) -> bool {
        value.re.is_nan() || value.im.is_nan()
    }
    fn is_finite_impl(value: Self) -> bool {
        value.re.is_finite() && value.im.is_finite()
    }
    fn simd_capable_spec() -> bool {
        Self::simd_capable()
    }
    fn zero_spec() -> Self {
        Self::zero_impl()
    }
    fn one_spec() -> Self {
        Self::one_impl()
    }
    fn infinity_spec() -> Self {
        Self::infinity_impl()
    }
    fn from_real_spec(value: R) -> Self {
        Self::from_real_impl(value)
    }
    fn real_part_spec(value: Self) -> R {
        Self::real_part_impl(value)
    }
    fn conj_spec(value: Self) -> Self {
        Self::conj_impl(value)
    }
    fn neg_spec(value: Self) -> Self {
        Self::neg_impl(value)
    }
    fn add_spec(lhs: Self, rhs: Self) -> Self {
        Self::add_impl(lhs, rhs)
    }
    fn sub_spec(lhs: Self, rhs: Self) -> Self {
        Self::sub_impl(lhs, rhs)
    }
    fn mul_spec(lhs: Self, rhs: Self) -> Self {
        Self::mul_impl(lhs, rhs)
    }
    fn mul_real_spec(lhs: Self, rhs: R) -> Self {
        Self::mul_real_impl(lhs, rhs)
    }
    fn mul_add_spec(a: Self, b: Self, c_: Self) -> Self {
        Self::mul_add_impl(a, b, c_)
    }
    fn recip_spec(value: Self) -> Self {
        Self::recip_impl(value)
    }
    fn abs_spec(value: Self) -> R {
        Self::abs_impl(value)
    }
    fn abs2_spec(value: Self) -> R {
        Self::abs2_impl(value)
    }
    fn is_nan_spec(value: Self) -> bool {
        Self::is_nan_impl(value)
    }
    fn is_finite_spec(value: Self) -> bool {
        Self::is_finite_impl(value)
    }
}

/// A dense complex matrix for the tests, column-major.
#[derive(Clone, Debug)]
struct M {
    nrows: usize,
    ncols: usize,
    data: Vec<C>,
}

impl M {
    fn zeros(nrows: usize, ncols: usize) -> M {
        M { nrows, ncols, data: vec![c(0.0, 0.0); nrows * ncols] }
    }
    fn random(rng: &mut StdRng, nrows: usize, ncols: usize) -> M {
        let mut m = M::zeros(nrows, ncols);
        for j in 0..ncols {
            for i in 0..nrows {
                let re: f64 = StandardNormal.sample(rng);
                let im: f64 = StandardNormal.sample(rng);
                m.data[i + j * nrows] = c(re, im);
            }
        }
        m
    }
    fn get(&self, i: usize, j: usize) -> C {
        self.data[i + j * self.nrows]
    }
    fn set(&mut self, i: usize, j: usize, v: C) {
        self.data[i + j * self.nrows] = v;
    }
    fn adjoint(&self) -> M {
        let mut m = M::zeros(self.ncols, self.nrows);
        for i in 0..self.nrows {
            for j in 0..self.ncols {
                m.set(j, i, C::conj_impl(self.get(i, j)));
            }
        }
        m
    }
    fn mul(&self, rhs: &M) -> M {
        assert_eq!(self.ncols, rhs.nrows);
        let mut m = M::zeros(self.nrows, rhs.ncols);
        for i in 0..self.nrows {
            for j in 0..rhs.ncols {
                let mut acc = c(0.0, 0.0);
                for k in 0..self.ncols {
                    acc = C::add_impl(acc, C::mul_impl(self.get(i, k), rhs.get(k, j)));
                }
                m.set(i, j, acc);
            }
        }
        m
    }
    fn add(&self, rhs: &M) -> M {
        let mut m = self.clone();
        for k in 0..m.data.len() {
            m.data[k] = C::add_impl(m.data[k], rhs.data[k]);
        }
        m
    }
    fn diag(d: &[C]) -> M {
        let mut m = M::zeros(d.len(), d.len());
        for i in 0..d.len() {
            m.set(i, i, d[i]);
        }
        m
    }
    fn as_ref(&self) -> MatRef<'_, C> {
        MatRef::from_column_major_slice(&self.data, self.nrows, self.ncols)
    }
    fn as_mut(&mut self) -> MatMut<'_, C> {
        MatMut::from_column_major_slice_mut(&mut self.data, self.nrows, self.ncols)
    }
    /// The same values stored row after row.
    fn row_major(&self) -> Vec<C> {
        let mut v = vec![c(0.0, 0.0); self.nrows * self.ncols];
        for i in 0..self.nrows {
            for j in 0..self.ncols {
                v[j + i * self.ncols] = self.get(i, j);
            }
        }
        v
    }
}

fn approx(a: C, b: C, abs_tol: f64, rel_tol: f64) -> bool {
    let diff = C::abs_impl(C::sub_impl(a, b)).0;
    let max = C::abs_impl(a).0.max(C::abs_impl(b).0);
    diff <= abs_tol || diff <= rel_tol * max
}

fn approx_mat(a: &M, b: &M, abs_tol: f64, rel_tol: f64) -> bool {
    a.nrows == b.nrows
        && a.ncols == b.ncols
        && (0..a.data.len()).all(|k| approx(a.data[k], b.data[k], abs_tol, rel_tol))
}

/// The factorization `L D Lᴴ` of a Hermitian matrix, in place: `L` below the
/// diagonal, `D` on it.
fn ldlt_in_place(a: &mut M) {
    let n = a.nrows;
    for j in 0..n {
        let mut d = a.get(j, j).re;
        for k in 0..j {
            let l = a.get(j, k);
            d -= (l.re * l.re + l.im * l.im) * a.get(k, k).re;
        }
        a.set(j, j, c(d, 0.0));
        for i in j + 1..n {
            let mut acc = a.get(i, j);
            for k in 0..j {
                let t = C::mul_impl(a.get(i, k), C::conj_impl(a.get(j, k)));
                acc = C::sub_impl(acc, C::mul_real_impl(t, R(a.get(k, k).re)));
            }
            a.set(i, j, C::mul_real_impl(acc, R(1.0 / d)));
        }
    }
}

#[test]
fn test_rank_update() {
    let rng = &mut StdRng::seed_from_u64(0);

    for r in [0, 1, 2, 3, 4, 5, 6, 7, 8, 10] {
        for n in [2, 4, 8, 15] {
            let a = M::random(rng, n, n);
            let mut w = M::random(rng, n, r);
            let mut alpha = M::random(rng, r, 1);
            for j in 0..r {
                alpha.data[j].im = 0.0;
            }

            let a = a.mul(&a.adjoint());
            let a_new = a.add(&w.mul(&M::diag(&alpha.data)).mul(&w.adjoint()));

            let mut l = a.clone();
            ldlt_in_place(&mut l);

            rank_r_update_clobber(
                l.as_mut(),
                w.as_mut(),
                ColMut::from_slice_mut(&mut alpha.data).as_diagonal_mut(),
            );
            let d: Vec<C> = (0..n).map(|i| l.get(i, i)).collect();
            let d = M::diag(&d);

            for j in 0..n {
                for i in 0..j {
                    l.set(i, j, c(0.0, 0.0));
                }
                l.set(j, j, c(1.0, 0.0));
            }

            assert!(approx_mat(&a_new, &l.mul(&d).mul(&l.adjoint()), 1e-12, 1e-12));
        }
    }
}

#[test]
fn rank_update_without_columns_changes_nothing() {
    let rng = &mut StdRng::seed_from_u64(1);
    let a = M::random(rng, 5, 5);
    let a = a.mul(&a.adjoint());
    let mut l = a.clone();
    ldlt_in_place(&mut l);
    let before = l.clone();
    let mut w = M::zeros(5, 0);
    let mut alpha: Vec<C> = vec![];
    rank_r_update_clobber(
        l.as_mut(),
        w.as_mut(),
        ColMut::from_slice_mut(&mut alpha).as_diagonal_mut(),
    );
    assert_eq!(l.data, before.data);
}

#[test]
fn rank_one_update_exact_values() {
    // A = [[4, 2], [2, 5]] = L D Lᴴ with L = [[1, 0], [0.5, 1]], D = diag(4, 4).
    // With w = [2, 0] and alpha = 3: A + 3 w wᴴ = [[16, 2], [2, 5]],
    // whose factors are L = [[1, 0], [0.125, 1]], D = diag(16, 4.75).
    let mut ld = M::zeros(2, 2);
    ld.set(0, 0, c(4.0, 0.0));
    ld.set(1, 0, c(0.5, 0.0));
    ld.set(1, 1, c(4.0, 0.0));
    let mut w = M::zeros(2, 1);
    w.set(0, 0, c(2.0, 0.0));
    let mut alpha = vec![c(3.0, 0.0)];
    rank_r_update_clobber(
        ld.as_mut(),
        w.as_mut(),
        ColMut::from_slice_mut(&mut alpha).as_diagonal_mut(),
    );
    assert_eq!(ld.get(0, 0), c(16.0, 0.0));
    assert_eq!(ld.get(1, 0), c(0.125, 0.0));
    assert_eq!(ld.get(1, 1), c(4.75, 0.0));
    assert_eq!(ld.get(0, 1), c(0.0, 0.0));
    // the working storage: in the first column the multiplier is
    // 3 * 2 / 16 = 0.375, the scale deflates to 3 - 16 * 0.375^2 = 0.75 and
    // the second row of w becomes -2 * 0.5 + 0 = -1; the second column then
    // deflates the scale to 0.75 - 4.75 * (0.75 * -1 / 4.75)^2
    assert_eq!(w.get(0, 0), c(2.0, 0.0));
    assert_eq!(w.get(1, 0), c(-1.0, 0.0));
    let beta = 0.75 * -1.0 * (1.0 / 4.75);
    assert_eq!(alpha[0], c(0.75 - 4.75 * (beta * beta), 0.0));
}

/// The reflector `I - v vᴴ / tau` applied to `x`, computed by hand.
fn reflect(v: &[C], tau: f64, x: &[C]) -> Vec<C> {
    let mut dot = c(0.0, 0.0);
    for i in 0..v.len() {
        dot = C::add_impl(dot, C::mul_impl(C::conj_impl(v[i]), x[i]));
    }
    let k = C::mul_real_impl(dot, R(-1.0 / tau));
    (0..v.len()).map(|i| C::add_impl(x[i], C::mul_impl(v[i], k))).collect()
}

#[test]
fn reflector_sends_vector_to_first_axis() {
    let rng = &mut StdRng::seed_from_u64(2);
    for n in [2usize, 3, 5, 9, 17] {
        let x = M::random(rng, n, 1).data;
        let mut head = x[0];
        let mut tail: Vec<C> = x[1..].to_vec();
        let (tau, inv) = make_householder_in_place(&mut head, ColMut::from_slice_mut(&mut tail));
        assert!(inv.is_some());
        assert_eq!(tau.im, 0.0);
        assert!(tau.re > 0.0);

        let mut v = vec![c(1.0, 0.0)];
        v.extend_from_slice(&tail);
        let y = reflect(&v, tau.re, &x);

        let norm = x.iter().map(|e| e.re * e.re + e.im * e.im).sum::<f64>().sqrt();
        let x0 = C::abs_impl(x[0]).0;
        let expected = C::mul_real_impl(x[0], R(-norm / x0));
        assert!(approx(head, expected, 1e-12, 1e-12));
        assert!(approx(y[0], expected, 1e-12, 1e-12));
        for i in 1..n {
            assert!(C::abs_impl(y[i]).0 <= 1e-12 * norm);
        }
    }
}

#[test]
fn reflector_of_zero_tail_is_identity_sentinel() {
    let mut head = c(3.0, -4.0);
    let mut tail = vec![c(0.0, 0.0); 4];
    let (tau, inv) = make_householder_in_place(&mut head, ColMut::from_slice_mut(&mut tail));
    assert!(inv.is_none());
    assert_eq!(tau.re, f64::INFINITY);
    assert_eq!(head, c(3.0, -4.0));
    assert_eq!(tail, vec![c(0.0, 0.0); 4]);

    let mut head = c(1.0, 2.0);
    let mut tail: Vec<C> = vec![];
    let (tau, inv) = make_householder_in_place(&mut head, ColMut::from_slice_mut(&mut tail));
    assert!(inv.is_none());
    assert_eq!(tau.re, f64::INFINITY);
}

#[test]
fn reflector_exact_values() {
    // x = [3; 4]: norm 5, sign 1, normaliser 8, essential 4 / 8, head -5,
    // tau = 0.5 * (1 + (4 * 1/8)^2) = 0.625.
    let mut head = c(3.0, 0.0);
    let mut tail = vec![c(4.0, 0.0)];
    let (tau, inv) = make_householder_in_place(&mut head, ColMut::from_slice_mut(&mut tail));
    assert_eq!(head, c(-5.0, 0.0));
    assert_eq!(tail[0], c(0.5, 0.0));
    assert_eq!(tau, c(0.625, 0.0));
    assert_eq!(inv, Some(c(0.125, 0.0)));
}

/// Builds a basis of `n` reflectors of `m` rows with their scales on the
/// diagonal of an `n` by `n` factor, as a factorization would leave them.
fn random_reflectors(rng: &mut StdRng, m: usize, n: usize) -> (M, M) {
    let mut basis = M::zeros(m, n);
    let mut factor = M::zeros(n, n);
    for j in 0..n {
        let x = M::random(rng, m - j, 1).data;
        let mut head = x[0];
        let mut tail: Vec<C> = x[1..].to_vec();
        let (tau, _) = make_householder_in_place(&mut head, ColMut::from_slice_mut(&mut tail));
        basis.set(j, j, c(1.0, 0.0));
        for i in j + 1..m {
            basis.set(i, j, tail[i - j - 1]);
        }
        factor.set(j, j, tau);
    }
    (basis, factor)
}

#[test]
fn rank_one_kernel_agrees_with_general_path() {
    let rng = &mut StdRng::seed_from_u64(3);
    for nrows in [1usize, 3, 7, 8, 9, 16, 17] {
        let ncols = 5;
        let (basis, factor) = random_reflectors(rng, nrows, 1);
        let a = M::random(rng, nrows, ncols);

        // contiguous rows: the rank-one kernel
        let mut fast = a.clone();
        let mut stack = vec![c(0.0, 0.0); ncols];
        apply_block_householder_on_the_left_in_place_with_conj(
            basis.as_ref(),
            factor.as_ref(),
            Conj::No,
            fast.as_mut(),
            Par::Sequential,
            &mut stack,
        );

        // the same operand stored row after row: the general path
        let mut general = a.row_major();
        apply_block_householder_on_the_left_in_place_with_conj(
            basis.as_ref(),
            factor.as_ref(),
            Conj::No,
            MatMut::from_column_major_slice_mut(&mut general, ncols, nrows).transpose_mut(),
            Par::Sequential,
            &mut stack,
        );

        for i in 0..nrows {
            for j in 0..ncols {
                assert!(approx(fast.get(i, j), general[j + i * ncols], 1e-12, 1e-12));
            }
        }
        if nrows > 1 {
            assert!(fast.data != a.data);
        }
    }
}

#[test]
fn upgrade_to_same_blocksize_is_identity() {
    let rng = &mut StdRng::seed_from_u64(4);
    let (basis, _) = random_reflectors(rng, 12, 8);
    let mut factor = M::random(rng, 8, 8);
    let before = factor.clone();
    upgrade_householder_factor(factor.as_mut(), basis.as_ref(), 4, 4, Par::Sequential);
    assert_eq!(factor.data, before.data);
}

#[test]
fn upgrade_in_steps_agrees_with_direct_upgrade() {
    let rng = &mut StdRng::seed_from_u64(5);
    let m = 40;
    let n = 32;
    let (basis, factor) = random_reflectors(rng, m, n);

    let mut direct = factor.clone();
    upgrade_householder_factor(direct.as_mut(), basis.as_ref(), n, 1, Par::Sequential);

    let mut stepwise = factor.clone();
    upgrade_householder_factor(stepwise.as_mut(), basis.as_ref(), 8, 1, Par::Sequential);
    upgrade_householder_factor(stepwise.as_mut(), basis.as_ref(), n, 8, Par::Sequential);

    for j in 0..n {
        for i in 0..=j {
            assert!(approx(direct.get(i, j), stepwise.get(i, j), 1e-12, 1e-12));
        }
    }
    // the upper triangle is really filled
    assert!(C::abs_impl(direct.get(0, n - 1)).0 > 0.0);
}

#[test]
fn upgraded_block_applies_like_its_reflectors() {
    // applying the block with its upgraded factor is applying the
    // reflectors one after the other, the last one first
    let rng = &mut StdRng::seed_from_u64(6);
    let m = 9;
    let n = 4;
    let k = 3;
    let (basis, factor1) = random_reflectors(rng, m, n);
    let a = M::random(rng, m, k);

    let mut factor = factor1.clone();
    upgrade_householder_factor(factor.as_mut(), basis.as_ref(), n, 1, Par::Sequential);
    let mut blocked = a.clone();
    let mut stack = vec![c(0.0, 0.0); n * k];
    apply_block_householder_on_the_left_in_place_with_conj(
        basis.as_ref(),
        factor.as_ref(),
        Conj::No,
        blocked.as_mut(),
        Par::Sequential,
        &mut stack,
    );

    let mut one_by_one = a.clone();
    for j in (0..n).rev() {
        let v: Vec<C> = (0..m).map(|i| if i < j { c(0.0, 0.0) } else { basis.get(i, j) }).collect();
        for col in 0..k {
            let x: Vec<C> = (0..m).map(|i| one_by_one.get(i, col)).collect();
            let y = reflect(&v, factor1.get(j, j).re, &x);
            for i in 0..m {
                one_by_one.set(i, col, y[i]);
            }
        }
    }
    assert!(approx_mat(&blocked, &one_by_one, 1e-12, 1e-12));
}

#[test]
fn sequence_applies_last_block_first() {
    let rng = &mut StdRng::seed_from_u64(7);
    let m = 10;
    let bs = 3;
    let size = 6;
    let k = 4;
    let (basis, factor1) = random_reflectors(rng, m, size);
    // the factors of the two blocks, side by side in a matrix of `bs` rows
    let mut factors = M::zeros(bs, size);
    for b in 0..2 {
        let mut f = M::zeros(bs, bs);
        for j in 0..bs {
            f.set(j, j, factor1.get(b * bs + j, b * bs + j));
        }
        let sub = basis.as_ref().submatrix(b * bs, b * bs, m - b * bs, bs);
        upgrade_householder_factor(f.as_mut(), sub, bs, 1, Par::Sequential);
        for j in 0..bs {
            for i in 0..bs {
                factors.set(i, b * bs + j, f.get(i, j));
            }
        }
    }
    let a = M::random(rng, m, k);
    let mut stack = vec![c(0.0, 0.0); bs * k];

    let mut driven = a.clone();
    apply_block_householder_sequence_on_the_left_in_place_with_conj(
        basis.as_ref(),
        factors.as_ref(),
        Conj::No,
        driven.as_mut(),
        Par::Sequential,
        &mut stack,
    );

    let apply_block = |b: usize, x: &mut M, stack: &mut Vec<C>| {
        apply_block_householder_on_the_left_in_place_with_conj(
            basis.as_ref().submatrix(b * bs, b * bs, m - b * bs, bs),
            factors.as_ref().submatrix(0, b * bs, bs, bs),
            Conj::No,
            x.as_mut().subrows_mut(b * bs, m - b * bs),
            Par::Sequential,
            stack,
        );
    };

    let mut manual = a.clone();
    apply_block(1, &mut manual, &mut stack);
    apply_block(0, &mut manual, &mut stack);
    assert_eq!(driven.data, manual.data);

    let mut wrong_order = a.clone();
    apply_block(0, &mut wrong_order, &mut stack);
    apply_block(1, &mut wrong_order, &mut stack);
    assert!(!approx_mat(&driven, &wrong_order, 1e-12, 1e-12));
}

#[test]
fn single_reflection_exact_values() {
    // v = [1; 1], tau = 2, x = [2; 4]: vᴴ x = 6, x - v * 6 / 2 = [-1; 1]
    let mut basis = M::zeros(2, 1);
    basis.set(0, 0, c(1.0, 0.0));
    basis.set(1, 0, c(1.0, 0.0));
    let mut factor = M::zeros(1, 1);
    factor.set(0, 0, c(2.0, 0.0));
    let mut x = M::zeros(2, 1);
    x.set(0, 0, c(2.0, 0.0));
    x.set(1, 0, c(4.0, 0.0));
    let mut stack = vec![c(0.0, 0.0); 1];

    // contiguous rows: the rank-one kernel
    let mut fast = x.clone();
    apply_block_householder_on_the_left_in_place_with_conj(
        basis.as_ref(),
        factor.as_ref(),
        Conj::No,
        fast.as_mut(),
        Par::Sequential,
        &mut stack,
    );
    assert_eq!(fast.data, vec![c(-1.0, 0.0), c(1.0, 0.0)]);

    // rows that are not contiguous: the general path
    let mut general = x.row_major();
    apply_block_householder_on_the_left_in_place_with_conj(
        basis.as_ref(),
        factor.as_ref(),
        Conj::No,
        MatMut::from_row_major_slice_mut(&mut general, 2, 1),
        Par::Sequential,
        &mut stack,
    );
    assert_eq!(general, vec![c(-1.0, 0.0), c(1.0, 0.0)]);
}

#[test]
fn rank_update_paths_agree() {
    // contiguous rows take the vectorised step, rows of a matrix stored row
    // after row the scalar one
    let rng = &mut StdRng::seed_from_u64(8);
    let (n, k) = (9, 6);
    let a = M::random(rng, n, n);
    let a = a.mul(&a.adjoint());
    let w = M::random(rng, n, k);
    let alpha: Vec<C> = (0..k).map(|j| c(1.0 + j as f64, 0.0)).collect();
    let mut l = a.clone();
    ldlt_in_place(&mut l);

    let mut fused = l.clone();
    let mut w1 = w.clone();
    let mut alpha1 = alpha.clone();
    rank_r_update_clobber(
        fused.as_mut(),
        w1.as_mut(),
        ColMut::from_slice_mut(&mut alpha1).as_diagonal_mut(),
    );

    let mut scalar = l.row_major();
    let mut w2 = w.row_major();
    let mut alpha2 = alpha.clone();
    rank_r_update_clobber(
        MatMut::from_row_major_slice_mut(&mut scalar, n, n),
        MatMut::from_row_major_slice_mut(&mut w2, n, k),
        ColMut::from_slice_mut(&mut alpha2).as_diagonal_mut(),
    );
    for i in 0..n {
        for j in 0..=i {
            assert!(approx(fused.get(i, j), scalar[j + i * n], 1e-12, 1e-12));
        }
    }
    assert!(fused.data != l.data);
}

#[test]
fn sequence_of_single_reflections_agrees_on_both_paths() {
    let rng = &mut StdRng::seed_from_u64(9);
    for nrows in [1usize, 3, 7, 8, 9, 16, 17] {
        let ncols = 4;
        let size = nrows.min(3);
        let (basis, factor) = random_reflectors(rng, nrows, size);
        // blocks of one reflection: the factors are the scales, side by side
        let mut scales = M::zeros(1, size);
        for j in 0..size {
            scales.set(0, j, factor.get(j, j));
        }
        let a = M::random(rng, nrows, ncols);
        let mut stack = vec![c(0.0, 0.0); ncols];

        let mut fast = a.clone();
        apply_block_householder_sequence_on_the_left_in_place_with_conj(
            basis.as_ref(),
            scales.as_ref(),
            Conj::No,
            fast.as_mut(),
            Par::Sequential,
            &mut stack,
        );
        let mut general = a.row_major();
        apply_block_householder_sequence_on_the_left_in_place_with_conj(
            basis.as_ref(),
            scales.as_ref(),
            Conj::No,
            MatMut::from_row_major_slice_mut(&mut general, nrows, ncols),
            Par::Sequential,
            &mut stack,
        );
        for i in 0..nrows {
            for j in 0..ncols {
                assert!(approx(fast.get(i, j), general[j + i * ncols], 1e-12, 1e-12));
            }
        }
    }
}

#[test]
fn single_reflection_on_one_row_exact_values() {
    // v = [1], tau = 2, x = [4, 6]: x - x / tau = [2, 3]
    let mut basis = M::zeros(1, 1);
    basis.set(0, 0, c(1.0, 0.0));
    let mut factor = M::zeros(1, 1);
    factor.set(0, 0, c(2.0, 0.0));
    let mut x = M::zeros(1, 2);
    x.set(0, 0, c(4.0, 0.0));
    x.set(0, 1, c(6.0, 0.0));
    let mut stack = vec![c(0.0, 0.0); 2];

    // contiguous rows: the rank-one kernel
    let mut fast = x.clone();
    assert_eq!(fast.as_mut().row_stride(), 1);
    apply_block_householder_on_the_left_in_place_with_conj(
        basis.as_ref(),
        factor.as_ref(),
        Conj::No,
        fast.as_mut(),
        Par::Sequential,
        &mut stack,
    );
    assert_eq!(fast.data, vec![c(2.0, 0.0), c(3.0, 0.0)]);

    // rows that are not contiguous: the general path
    let mut general = x.row_major();
    let view = MatMut::from_row_major_slice_mut(&mut general, 1, 2);
    assert_eq!(view.row_stride(), 2);
    apply_block_householder_on_the_left_in_place_with_conj(
        basis.as_ref(),
        factor.as_ref(),
        Conj::No,
        view,
        Par::Sequential,
        &mut stack,
    );
    assert_eq!(general, vec![c(2.0, 0.0), c(3.0, 0.0)]);

    // a single entry
    let mut one = vec![c(4.0, 0.0)];
    apply_block_householder_on_the_left_in_place_with_conj(
        basis.as_ref(),
        factor.as_ref(),
        Conj::No,
        MatMut::from_column_major_slice_mut(&mut one, 1, 1),
        Par::Sequential,
        &mut stack,
    );
    assert_eq!(one, vec![c(2.0, 0.0)]);
}

#[test]
fn paths_agree_on_one_row_with_a_finite_scale() {
    let rng = &mut StdRng::seed_from_u64(10);
    for _ in 0..5 {
        let ncols = 6;
        let mut basis = M::zeros(1, 1);
        basis.set(0, 0, c(1.0, 0.0));
        let mut factor = M::zeros(1, 1);
        let tau: f64 = StandardNormal.sample(rng);
        factor.set(0, 0, c(0.5 + tau.abs(), 0.0));
        let a = M::random(rng, 1, ncols);
        let mut stack = vec![c(0.0, 0.0); ncols];

        let mut fast = a.clone();
        apply_block_householder_on_the_left_in_place_with_conj(
            basis.as_ref(),
            factor.as_ref(),
            Conj::No,
            fast.as_mut(),
            Par::Sequential,
            &mut stack,
        );
        let mut general = a.row_major();
        apply_block_householder_on_the_left_in_place_with_conj(
            basis.as_ref(),
            factor.as_ref(),
            Conj::No,
            MatMut::from_row_major_slice_mut(&mut general, 1, ncols),
            Par::Sequential,
            &mut stack,
        );
        for j in 0..ncols {
            assert!(approx(fast.get(0, j), general[j], 1e-12, 1e-12));
            assert!(!approx(fast.get(0, j), a.get(0, j), 1e-12, 1e-12));
        }
    }
}
