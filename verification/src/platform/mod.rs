//! What the firmware adapter reads or computes that the core interprets:
//! the Secure Boot posture variables, and the ids, listings, labels, paths
//! and load options of the firmware volumes. The adapter itself (variables,
//! files, graphics, volumes) lives with the firmware bindings.
pub mod secureboot;
pub mod volume;

pub use secureboot::read_secure_boot;
