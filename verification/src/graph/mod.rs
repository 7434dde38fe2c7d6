//! The Boot Graph: the single source of truth for what is bootable — disks,
//! the operating systems on them, and each OS's bootable entries, with stable
//! identifiers and health annotations.
pub mod ids;
pub mod kinds;
pub mod health;
pub mod entry;
pub mod tree;
pub mod laws;
pub mod order;

pub use ids::{EntryId, DiskId};
pub use kinds::{OsKind, EntryRole, BootMethod, RoleV};
pub use health::{Reason, Health, BootResult};
pub use entry::{EfiPath, BootEntry};
pub use tree::{OsNode, DiskNode, BootGraph};
