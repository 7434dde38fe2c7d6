//! Architecture support: the data structures of the boot protocols a
//! directly loaded kernel reads at hand-off.
pub mod x86_64;
