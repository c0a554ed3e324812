//! Column views and the owned column.
pub mod colmut;
pub mod colown;
pub mod colref;
