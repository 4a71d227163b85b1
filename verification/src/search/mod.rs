//! Move choosers.
pub mod random;
