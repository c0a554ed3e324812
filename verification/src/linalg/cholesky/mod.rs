//! Cholesky factorizations.
pub mod ldlt;
pub mod llt;
