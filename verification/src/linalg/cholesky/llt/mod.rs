//! The factorization `L Lᴴ` with lower triangular `L`.
pub mod solve;
