//! The decisions of the boot pipeline: which strategy and timeout the
//! configuration asks for, what history the policy sees, the order in which
//! entries are attempted, the launch plan of each and the command line it
//! receives, what a console key means and the auto-boot countdown, and the
//! data a direct kernel boot builds. The pipeline itself, which talks to
//! the firmware, drives these.
pub mod pipeline;
pub mod direct_boot;
pub mod laws;
pub mod console;
