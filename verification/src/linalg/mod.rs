//! Linear-algebra kernels.
pub mod cholesky;
pub mod householder;
pub mod kron;
pub mod matmul;
pub mod reductions;
pub mod temp_mat;
pub mod triangular_solve;
