//! Declarative configuration and firmware reconciliation: a small TOML-subset
//! reader, the typed configuration model with validation, and the
//! reversible repair of the firmware boot order.
pub mod toml;
pub mod schema;
pub mod reconcile;

pub use schema::{Config, ConfigError, EntrySpec, PolicyKind, RollbackKind};
pub use reconcile::{ReconcilePlan, PlanStep, Snapshot};
