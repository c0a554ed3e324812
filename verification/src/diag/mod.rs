//! Diagonal matrices, stored as the column of their diagonal.
pub mod diagmut;
pub mod diagown;
pub mod diagref;
