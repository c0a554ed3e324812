//! Row views and the owned row.
pub mod rowmut;
pub mod rowown;
pub mod rowref;
