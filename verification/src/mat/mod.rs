//! Matrix views and the owned dense matrix.
pub mod matmut;
pub mod matown;
pub mod matref;
