//! The PE/COFF header check that tells an EFI application (an EFI-stub
//! kernel) from anything else.
use vstd::prelude::*;
use crate::persistence::loadopt::{le16_at, le32_at};

verus! {

/// Is this the head of a PE/COFF image whose optional header (PE32 or
/// PE32+) declares the EFI-application subsystem (10)? `MZ` at 0, the PE
/// header offset at 0x3C, `PE\0\0` there, the optional-header magic 24
/// bytes on and the subsystem 92 bytes on.
pub open spec fn is_efi_application(b: Seq<u8>) -> bool {
    let off = le32_at(b, 0x3C) as int;
    &&& b.len() >= 0x40
    &&& b[0] == 0x4D && b[1] == 0x5A
    &&& off + 94 <= b.len()
    &&& b[off] == 0x50 && b[off + 1] == 0x45 && b[off + 2] == 0 && b[off + 3] == 0
    &&& (le16_at(b, off + 24) == 0x20b || le16_at(b, off + 24) == 0x10b)
    &&& le16_at(b, off + 92) == 10
}

/// Whether `bytes` start an EFI application image (see
/// [`is_efi_application`]).
pub fn efi_application(bytes: &[u8]) -> (r: bool)
    ensures
        r == is_efi_application(bytes@),
{
    let n = bytes.len();
    if n < 0x40 || bytes[0] != 0x4D || bytes[1] != 0x5A {
        return false;
    }
    let off: u32 = (bytes[0x3C] as u32) + 256 * (bytes[0x3D] as u32) + 65536 * (bytes[0x3E] as u32)
        + 16777216 * (bytes[0x3F] as u32);
    let off = off as usize;
    if off > n || n - off < 94 {
        return false;
    }
    if bytes[off] != 0x50 || bytes[off + 1] != 0x45 || bytes[off + 2] != 0 || bytes[off + 3] != 0 {
        return false;
    }
    let magic: u16 = (bytes[off + 24] as u16) + 256 * (bytes[off + 25] as u16);
    let sub: u16 = (bytes[off + 92] as u16) + 256 * (bytes[off + 93] as u16);
    (magic == 0x20b || magic == 0x10b) && sub == 10
}

} // verus!
