//! The deterministic, explainable default-selection engine. Given the Boot
//! Graph and a little history, it decides which entry should be the default
//! and why: no randomness, no opaque model, and every decision carries a
//! machine-readable reason.
//!
//! `model` holds the strategy, history and decision data; `decide` the
//! algorithm.
pub mod model;
pub mod decide;
pub mod laws;

pub use model::{Strategy, History, Decision, Reason};
pub use decide::{decide, ranked_candidates};
