//! E820 memory types (the ones a loader emits).
use vstd::prelude::*;

verus! {

pub const RAM: u32 = 1;
pub const RESERVED: u32 = 2;
/// ACPI reclaimable.
pub const ACPI: u32 = 3;
/// ACPI non-volatile storage.
pub const NVS: u32 = 4;
pub const UNUSABLE: u32 = 5;

} // verus!
