//! x86_64 support.
pub mod boot_params;
