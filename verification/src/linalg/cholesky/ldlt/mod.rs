//! The factorization `L D Lᴴ` with unit lower triangular `L` and real
//! diagonal `D`, stored in one matrix: `L` below the diagonal, `D` on it.
pub mod update;
