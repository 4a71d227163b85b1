//! Position evaluation.
pub mod static_eval;
