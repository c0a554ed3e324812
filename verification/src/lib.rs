//! Dense linear-algebra kernels over strided matrix and column views: block
//! Householder transformations and the rank-r update of an LDLT factorization.
pub mod algebra;
pub mod col;
pub mod diag;
pub mod layout;
pub mod linalg;
pub mod mat;
pub mod par;
pub mod row;
pub mod scalar;
pub mod utils;
