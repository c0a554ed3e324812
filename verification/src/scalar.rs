//! Scalar capabilities consumed by every kernel of the crate.
//!
//! The kernels are generic over the element type. An element type states, for
//! each operation, a specification function and an executable function that
//! computes it; the contracts of the kernels are expression trees over those
//! specification functions. Nothing is assumed of the operations beyond being
//! functions of their arguments: no associativity, no distributivity, no
//! cancellation. The results proved here therefore hold bit for bit for
//! rounding arithmetic.
use vstd::prelude::*;

verus! {

/// Whether an operand is read as stored or through complex conjugation.
#[derive(Clone, Copy, Debug, PartialEq, Eq, Structural)]
pub enum Conj {
    /// Read as stored.
    No,
    /// Read conjugated.
    Yes,
}

impl Conj {
    /// Conjugating twice cancels out: the composition of two flags is their
    /// exclusive or.
    pub open spec fn compose_spec(self, other: Conj) -> Conj {
        if self == other {
            Conj::No
        } else {
            Conj::Yes
        }
    }

    /// Composes two conjugation flags.
    pub fn compose(self, other: Conj) -> (r: Conj)
        ensures
            r == self.compose_spec(other),
    {
        match (self, other) {
            (Conj::No, Conj::No) => Conj::No,
            (Conj::Yes, Conj::Yes) => Conj::No,
            (Conj::No, Conj::Yes) => Conj::Yes,
            (Conj::Yes, Conj::No) => Conj::Yes,
        }
    }

    /// Whether the flag asks for conjugation.
    pub fn is_conj(self) -> (r: bool)
        ensures
            r == (self == Conj::Yes),
    {
        match self {
            Conj::Yes => true,
            Conj::No => false,
        }
    }
}

/// Whether a kernel overwrites its destination or accumulates into it.
#[derive(Clone, Copy, Debug, PartialEq, Eq, Structural)]
pub enum Accum {
    /// The destination is overwritten; its previous content is not read.
    Replace,
    /// The result is added to the previous content of the destination.
    Add,
}

/// Ordered real scalars: the type of norms, pivots and reflector scales.
pub trait RealField: Copy + Sized {
    spec fn zero_spec() -> Self;

    spec fn one_spec() -> Self;

    /// The real number one half.
    spec fn one_half_spec() -> Self;

    /// Positive infinity.
    spec fn infinity_spec() -> Self;

    /// The smallest positive value the type represents.
    spec fn min_positive_spec() -> Self;

    spec fn add_spec(lhs: Self, rhs: Self) -> Self;

    spec fn sub_spec(lhs: Self, rhs: Self) -> Self;

    spec fn mul_spec(lhs: Self, rhs: Self) -> Self;

    spec fn recip_spec(value: Self) -> Self;

    spec fn sqrt_spec(value: Self) -> Self;

    /// The Euclidean length of the vector `(lhs, rhs)`.
    spec fn hypot_spec(lhs: Self, rhs: Self) -> Self;

    spec fn abs_spec(value: Self) -> Self;

    /// The strict order of the scalars.
    spec fn lt_spec(lhs: Self, rhs: Self) -> bool;

    /// Numerical equality, which need not be identity of representation.
    spec fn eq_spec(lhs: Self, rhs: Self) -> bool;

    spec fn is_nan_spec(value: Self) -> bool;

    spec fn is_finite_spec(value: Self) -> bool;

    fn zero_impl() -> (r: Self)
        ensures
            r == Self::zero_spec(),
    ;

    fn one_impl() -> (r: Self)
        ensures
            r == Self::one_spec(),
    ;

    fn one_half_impl() -> (r: Self)
        ensures
            r == Self::one_half_spec(),
    ;

    fn infinity_impl() -> (r: Self)
        ensures
            r == Self::infinity_spec(),
    ;

    fn min_positive_impl() -> (r: Self)
        ensures
            r == Self::min_positive_spec(),
    ;

    fn add_impl(lhs: Self, rhs: Self) -> (r: Self)
        ensures
            r == Self::add_spec(lhs, rhs),
    ;

    fn sub_impl(lhs: Self, rhs: Self) -> (r: Self)
        ensures
            r == Self::sub_spec(lhs, rhs),
    ;

    fn mul_impl(lhs: Self, rhs: Self) -> (r: Self)
        ensures
            r == Self::mul_spec(lhs, rhs),
    ;

    fn recip_impl(value: Self) -> (r: Self)
        ensures
            r == Self::recip_spec(value),
    ;

    fn sqrt_impl(value: Self) -> (r: Self)
        ensures
            r == Self::sqrt_spec(value),
    ;

    fn hypot_impl(lhs: Self, rhs: Self) -> (r: Self)
        ensures
            r == Self::hypot_spec(lhs, rhs),
    ;

    fn abs_impl(value: Self) -> (r: Self)
        ensures
            r == Self::abs_spec(value),
    ;

    fn lt_impl(lhs: Self, rhs: Self) -> (r: bool)
        ensures
            r == Self::lt_spec(lhs, rhs),
    ;

    fn eq_impl(lhs: Self, rhs: Self) -> (r: bool)
        ensures
            r == Self::eq_spec(lhs, rhs),
    ;

    fn is_nan_impl(value: Self) -> (r: bool)
        ensures
            r == Self::is_nan_spec(value),
    ;

    fn is_finite_impl(value: Self) -> (r: bool)
        ensures
            r == Self::is_finite_spec(value),
    ;
}

/// Matrix elements: real or complex scalars with conjugation and a real part.
pub trait ComplexField: Copy + Sized {
    /// The type of the real part, of absolute values and of norms.
    type Real: RealField;

    /// Whether the vectorised kernels may be chosen for this type.
    spec fn simd_capable_spec() -> bool;

    spec fn zero_spec() -> Self;

    spec fn one_spec() -> Self;

    /// The value that stands for an infinite scale.
    spec fn infinity_spec() -> Self;

    spec fn from_real_spec(value: Self::Real) -> Self;

    spec fn real_part_spec(value: Self) -> Self::Real;

    spec fn conj_spec(value: Self) -> Self;

    spec fn neg_spec(value: Self) -> Self;

    spec fn add_spec(lhs: Self, rhs: Self) -> Self;

    spec fn sub_spec(lhs: Self, rhs: Self) -> Self;

    spec fn mul_spec(lhs: Self, rhs: Self) -> Self;

    spec fn mul_real_spec(lhs: Self, rhs: Self::Real) -> Self;

    /// The fused multiply-add `a * b + c`, as a vector unit computes it in
    /// each lane.
    spec fn mul_add_spec(a: Self, b: Self, c: Self) -> Self;

    spec fn recip_spec(value: Self) -> Self;

    /// The modulus.
    spec fn abs_spec(value: Self) -> Self::Real;

    /// The squared modulus.
    spec fn abs2_spec(value: Self) -> Self::Real;

    spec fn is_nan_spec(value: Self) -> bool;

    spec fn is_finite_spec(value: Self) -> bool;

    fn simd_capable() -> (r: bool)
        ensures
            r == Self::simd_capable_spec(),
    ;

    fn zero_impl() -> (r: Self)
        ensures
            r == Self::zero_spec(),
    ;

    fn one_impl() -> (r: Self)
        ensures
            r == Self::one_spec(),
    ;

    fn infinity_impl() -> (r: Self)
        ensures
            r == Self::infinity_spec(),
    ;

    fn from_real_impl(value: Self::Real) -> (r: Self)
        ensures
            r == Self::from_real_spec(value),
    ;

    fn real_part_impl(value: Self) -> (r: Self::Real)
        ensures
            r == Self::real_part_spec(value),
    ;

    fn conj_impl(value: Self) -> (r: Self)
        ensures
            r == Self::conj_spec(value),
    ;

    fn neg_impl(value: Self) -> (r: Self)
        ensures
            r == Self::neg_spec(value),
    ;

    fn add_impl(lhs: Self, rhs: Self) -> (r: Self)
        ensures
            r == Self::add_spec(lhs, rhs),
    ;

    fn sub_impl(lhs: Self, rhs: Self) -> (r: Self)
        ensures
            r == Self::sub_spec(lhs, rhs),
    ;

    fn mul_impl(lhs: Self, rhs: Self) -> (r: Self)
        ensures
            r == Self::mul_spec(lhs, rhs),
    ;

    fn mul_real_impl(lhs: Self, rhs: Self::Real) -> (r: Self)
        ensures
            r == Self::mul_real_spec(lhs, rhs),
    ;

    fn mul_add_impl(a: Self, b: Self, c: Self) -> (r: Self)
        ensures
            r == Self::mul_add_spec(a, b, c),
    ;

    fn recip_impl(value: Self) -> (r: Self)
        ensures
            r == Self::recip_spec(value),
    ;

    fn abs_impl(value: Self) -> (r: Self::Real)
        ensures
            r == Self::abs_spec(value),
    ;

    fn abs2_impl(value: Self) -> (r: Self::Real)
        ensures
            r == Self::abs2_spec(value),
    ;

    fn is_nan_impl(value: Self) -> (r: bool)
        ensures
            r == Self::is_nan_spec(value),
    ;

    fn is_finite_impl(value: Self) -> (r: bool)
        ensures
            r == Self::is_finite_spec(value),
    ;
}

/// An element as an operand reads it: conjugated when `conj` says so.
pub open spec fn conj_if<T: ComplexField>(conj: Conj, value: T) -> T {
    match conj {
        Conj::No => value,
        Conj::Yes => T::conj_spec(value),
    }
}

/// Reads `value` through the conjugation flag `conj`.
pub fn apply_conj<T: ComplexField>(conj: Conj, value: T) -> (r: T)
    ensures
        r == conj_if(conj, value),
{
    match conj {
        Conj::No => value,
        Conj::Yes => T::conj_impl(value),
    }
}

} // verus!
