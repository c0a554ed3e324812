//! Small helpers of the views.
pub mod bound;
