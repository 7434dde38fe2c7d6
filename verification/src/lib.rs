//! MyBoot's boot-manager core: the Boot Graph, discovery parsers, persisted
//! state encodings, configuration, policy and launch planning — each with a
//! machine-checked contract.
#![allow(unused_imports)]

pub mod text;
pub mod graph;
pub mod ports;
pub mod persistence;
pub mod config;
pub mod discovery;
pub mod health;
pub mod policy;
pub mod providers;
pub mod security;
pub mod arch;
pub mod engine;
pub mod platform;
