//! Reductions of a column to a scalar: sums, norms and tests on the entries.
//!
//! Every reduction accumulates from the first entry to the last.
use crate::col::colref::ColRef;
use crate::scalar::{ComplexField, RealField};
use vstd::prelude::*;

verus! {

/// The sum of the first `n` entries of `s`, accumulated from zero.
pub open spec fn sum_spec<T: ComplexField>(s: Seq<T>, n: int) -> T
    decreases n,
{
    if n <= 0 {
        T::zero_spec()
    } else {
        T::add_spec(sum_spec(s, n - 1), s[n - 1])
    }
}

/// The sum of the squared moduli of the first `n` entries of `s`.
pub open spec fn squared_norm_l2_spec<T: ComplexField>(s: Seq<T>, n: int) -> T::Real
    decreases n,
{
    if n <= 0 {
        T::Real::zero_spec()
    } else {
        T::Real::add_spec(squared_norm_l2_spec(s, n - 1), T::abs2_spec(s[n - 1]))
    }
}

/// The Euclidean norm of `s`: the square root of the sum of the squared
/// moduli.
pub open spec fn norm_l2_spec<T: ComplexField>(s: Seq<T>) -> T::Real {
    T::Real::sqrt_spec(squared_norm_l2_spec(s, s.len() as int))
}

/// The sum of the moduli of the first `n` entries of `s`.
pub open spec fn norm_l1_spec<T: ComplexField>(s: Seq<T>, n: int) -> T::Real
    decreases n,
{
    if n <= 0 {
        T::Real::zero_spec()
    } else {
        T::Real::add_spec(norm_l1_spec(s, n - 1), T::abs_spec(s[n - 1]))
    }
}

/// The largest modulus among the first `n` entries of `s`, zero for none: an
/// entry replaces the running maximum when the maximum is less than its
/// modulus.
pub open spec fn norm_max_spec<T: ComplexField>(s: Seq<T>, n: int) -> T::Real
    decreases n,
{
    if n <= 0 {
        T::Real::zero_spec()
    } else {
        let prev = norm_max_spec(s, n - 1);
        let next = T::abs_spec(s[n - 1]);
        if T::Real::lt_spec(prev, next) {
            next
        } else {
            prev
        }
    }
}

/// Whether some entry of `s` is not a number.
pub open spec fn has_nan_spec<T: ComplexField>(s: Seq<T>) -> bool {
    exists|i: int| 0 <= i < s.len() && T::is_nan_spec(#[trigger] s[i])
}

/// Whether every entry of `s` is finite.
pub open spec fn is_all_finite_spec<T: ComplexField>(s: Seq<T>) -> bool {
    forall|i: int| 0 <= i < s.len() ==> T::is_finite_spec(#[trigger] s[i])
}

/// The sum of the entries of `col`.
pub fn sum<T: ComplexField>(col: ColRef<'_, T>) -> (r: T)
    requires
        col.wf(),
    ensures
        r == sum_spec(col@, col@.len() as int),
{
    let n = col.nrows();
    let mut acc = T::zero_impl();
    let mut i: usize = 0;
    while i < n
        invariant
            i <= n,
            n == col.nrows(),
            col.wf(),
            acc == sum_spec(col@, i as int),
        decreases n - i,
    {
        acc = T::add_impl(acc, col.read(i));
        i += 1;
    }
    acc
}

/// The squared Euclidean norm of `col`.
pub fn squared_norm_l2<T: ComplexField>(col: ColRef<'_, T>) -> (r: T::Real)
    requires
        col.wf(),
    ensures
        r == squared_norm_l2_spec(col@, col@.len() as int),
{
    let n = col.nrows();
    let mut acc = T::Real::zero_impl();
    let mut i: usize = 0;
    while i < n
        invariant
            i <= n,
            n == col.nrows(),
            col.wf(),
            acc == squared_norm_l2_spec(col@, i as int),
        decreases n - i,
    {
        acc = T::Real::add_impl(acc, T::abs2_impl(col.read(i)));
        i += 1;
    }
    acc
}

/// The Euclidean norm of `col`.
pub fn norm_l2<T: ComplexField>(col: ColRef<'_, T>) -> (r: T::Real)
    requires
        col.wf(),
    ensures
        r == norm_l2_spec(col@),
{
    T::Real::sqrt_impl(squared_norm_l2(col))
}

/// The sum of the moduli of the entries of `col`.
pub fn norm_l1<T: ComplexField>(col: ColRef<'_, T>) -> (r: T::Real)
    requires
        col.wf(),
    ensures
        r == norm_l1_spec(col@, col@.len() as int),
{
    let n = col.nrows();
    let mut acc = T::Real::zero_impl();
    let mut i: usize = 0;
    while i < n
        invariant
            i <= n,
            n == col.nrows(),
            col.wf(),
            acc == norm_l1_spec(col@, i as int),
        decreases n - i,
    {
        acc = T::Real::add_impl(acc, T::abs_impl(col.read(i)));
        i += 1;
    }
    acc
}

/// The largest modulus among the entries of `col`.
pub fn norm_max<T: ComplexField>(col: ColRef<'_, T>) -> (r: T::Real)
    requires
        col.wf(),
    ensures
        r == norm_max_spec(col@, col@.len() as int),
{
    let n = col.nrows();
    let mut acc = T::Real::zero_impl();
    let mut i: usize = 0;
    while i < n
        invariant
            i <= n,
            n == col.nrows(),
            col.wf(),
            acc == norm_max_spec(col@, i as int),
        decreases n - i,
    {
        let next = T::abs_impl(col.read(i));
        if T::Real::lt_impl(acc, next) {
            acc = next;
        }
        i += 1;
    }
    acc
}

/// Whether some entry of `col` is not a number.
pub fn has_nan<T: ComplexField>(col: ColRef<'_, T>) -> (r: bool)
    requires
        col.wf(),
    ensures
        r == has_nan_spec(col@),
{
    let n = col.nrows();
    let mut i: usize = 0;
    while i < n
        invariant
            i <= n,
            n == col.nrows(),
            col.wf(),
            forall|a: int| 0 <= a < i ==> !T::is_nan_spec(#[trigger] col@[a]),
        decreases n - i,
    {
        if T::is_nan_impl(col.read(i)) {
            return true;
        }
        i += 1;
    }
    false
}

/// Whether every entry of `col` is finite.
pub fn is_all_finite<T: ComplexField>(col: ColRef<'_, T>) -> (r: bool)
    requires
        col.wf(),
    ensures
        r == is_all_finite_spec(col@),
{
    let n = col.nrows();
    let mut i: usize = 0;
    while i < n
        invariant
            i <= n,
            n == col.nrows(),
            col.wf(),
            forall|a: int| 0 <= a < i ==> T::is_finite_spec(#[trigger] col@[a]),
        decreases n - i,
    {
        if !T::is_finite_impl(col.read(i)) {
            return false;
        }
        i += 1;
    }
    true
}

} // verus!
