//! Persisted state, with no database: firmware variables for tiny must-persist
//! values, files on the ESP for the growing boot log. This module owns the
//! encodings and the thin stores that move them through the ports.
pub mod utf16;
pub mod loadopt;
pub mod nvram;
pub mod log;
