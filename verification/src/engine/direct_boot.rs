//! The direct-kernel boot path's data: the setup header of a raw bzImage,
//! where its protected-mode body starts, and the E820 map derived from the
//! firmware memory map.
use vstd::prelude::*;
use crate::arch::x86_64::boot_params::{SetupHeader, E820Entry, header_at, decode_header,
    SETUP_HEADER_OFFSET, SETUP_HEADER_SIZE};
use crate::arch::x86_64::boot_params::e820;

verus! {

/// Read the setup header out of a kernel image at offset 0x1f1; `None` if
/// the image is too short to hold one.
pub fn read_setup_header(kernel: &[u8]) -> (r: Option<SetupHeader>)
    ensures
        match r {
            Some(h) => kernel@.len() >= SETUP_HEADER_OFFSET + SETUP_HEADER_SIZE && h == header_at(
                kernel@,
                SETUP_HEADER_OFFSET as int,
            ),
            None => kernel@.len() < SETUP_HEADER_OFFSET + SETUP_HEADER_SIZE,
        },
{
    if kernel.len() < SETUP_HEADER_OFFSET + SETUP_HEADER_SIZE {
        return None;
    }
    Some(decode_header(kernel, SETUP_HEADER_OFFSET))
}

/// Where the protected-mode kernel starts in the image: after the boot
/// sector and the real-mode setup sectors (four when the header says none).
pub open spec fn body_offset(h: SetupHeader) -> int {
    ((if h.setup_sects == 0 { 4 } else { h.setup_sects as int }) + 1) * 512
}

/// Where the protected-mode kernel starts in the image.
pub fn kernel_body_offset(h: &SetupHeader) -> (r: usize)
    ensures
        r == body_offset(*h),
{
    let sects: usize = if h.setup_sects == 0 {
        4
    } else {
        h.setup_sects as usize
    };
    (sects + 1) * 512
}

/// Where the protected-mode body starts in the image, if the image
/// reaches that offset (the body may be empty); `None` for an image that
/// ends before it.
pub fn kernel_body_start(kernel: &[u8], h: &SetupHeader) -> (r: Option<usize>)
    ensures
        match r {
            Some(o) => o == body_offset(*h) && o <= kernel@.len(),
            None => kernel@.len() < body_offset(*h),
        },
{
    let o = kernel_body_offset(h);
    if o <= kernel.len() {
        Some(o)
    } else {
        None
    }
}

/// One region of the firmware memory map: its UEFI memory type, physical
/// start and size in 4 KiB pages.
#[derive(Clone, Copy, Debug, PartialEq, Eq, Structural)]
pub struct MemRegion {
    pub ty: u32,
    pub phys_start: u64,
    pub page_count: u64,
}

/// The E820 type a UEFI memory type maps to: loader, boot-services and
/// conventional memory are RAM; ACPI reclaim and NVS keep their kinds;
/// unusable stays unusable; everything else (runtime services, MMIO,
/// reserved) is reserved.
pub open spec fn spec_e820_type(ty: u32) -> u32 {
    if ty == 7 || ty == 3 || ty == 4 || ty == 1 || ty == 2 {
        e820::RAM
    } else if ty == 9 {
        e820::ACPI
    } else if ty == 10 {
        e820::NVS
    } else if ty == 8 {
        e820::UNUSABLE
    } else {
        e820::RESERVED
    }
}

/// Map a UEFI memory type to its E820 type.
pub fn e820_type(ty: u32) -> (r: u32)
    ensures
        r == spec_e820_type(ty),
{
    if ty == 7 || ty == 3 || ty == 4 || ty == 1 || ty == 2 {
        e820::RAM
    } else if ty == 9 {
        e820::ACPI
    } else if ty == 10 {
        e820::NVS
    } else if ty == 8 {
        e820::UNUSABLE
    } else {
        e820::RESERVED
    }
}

/// An E820 entry with an unbounded size.
pub struct E820Spec {
    pub addr: u64,
    pub size: int,
    pub kind: u32,
}

/// The E820 map of a memory map: empty regions dropped, and each region
/// merged into the previous entry when that entry has the same type and
/// ends (modulo 2^64) where the region starts.
pub open spec fn coalesced(rs: Seq<MemRegion>) -> Seq<E820Spec>
    decreases rs.len(),
{
    if rs.len() == 0 {
        seq![]
    } else {
        let out = coalesced(rs.drop_last());
        let d = rs.last();
        let size = d.page_count * 4096;
        let kind = spec_e820_type(d.ty);
        if size == 0 {
            out
        } else if out.len() > 0 && out.last().kind == kind && (out.last().addr + out.last().size) % 0x1_0000_0000_0000_0000
            == d.phys_start {
            out.update(out.len() - 1, E820Spec { size: out.last().size + size, ..out.last() })
        } else {
            out.push(E820Spec { addr: d.phys_start, size, kind })
        }
    }
}

/// Every entry of the map fits a 64-bit size.
pub open spec fn sizes_fit(s: Seq<E820Spec>) -> bool {
    forall|i: int| 0 <= i < s.len() ==> (#[trigger] s[i]).size <= u64::MAX
}

/// Adding one region keeps every entry, or grows the last one.
proof fn lemma_coalesced_step(rs: Seq<MemRegion>, i: int)
    requires
        rs.len() > 0,
        0 <= i < coalesced(rs.drop_last()).len(),
        coalesced(rs.drop_last())[i].size >= 0,
    ensures
        i < coalesced(rs).len(),
        coalesced(rs.drop_last())[i].size <= coalesced(rs)[i].size,
{
}

/// Entries of `coalesced` only grow as regions are added.
proof fn lemma_coalesced_grows(rs: Seq<MemRegion>, k: int, i: int)
    requires
        0 <= k <= rs.len(),
        0 <= i < coalesced(rs.take(k)).len(),
    ensures
        i < coalesced(rs).len(),
        coalesced(rs.take(k))[i].size <= coalesced(rs)[i].size,
    decreases rs.len() - k,
{
    if k < rs.len() {
        let t = rs.take(k + 1);
        assert(t.drop_last() =~= rs.take(k));
        lemma_coalesced_nonneg(rs.take(k));
        lemma_coalesced_step(t, i);
        lemma_coalesced_grows(rs, k + 1, i);
    } else {
        assert(rs.take(k) =~= rs);
    }
}

proof fn lemma_coalesced_nonneg(rs: Seq<MemRegion>)
    ensures
        forall|i: int| 0 <= i < coalesced(rs).len() ==> (#[trigger] coalesced(rs)[i]).size >= 0,
    decreases rs.len(),
{
    if rs.len() > 0 {
        lemma_coalesced_nonneg(rs.drop_last());
        let out = coalesced(rs.drop_last());
        let d = rs.last();
        assert(d.page_count * 4096 >= 0) by (nonlinear_arith);
        assert forall|i: int| 0 <= i < coalesced(rs).len() implies (#[trigger] coalesced(rs)[i]).size >= 0 by {
            if i < out.len() {
                assert(out[i].size >= 0);
            }
        }
    }
}

/// Convert a firmware memory map into a compact E820 table.
pub fn to_e820(regions: &[MemRegion]) -> (r: Vec<E820Entry>)
    requires
        forall|i: int| 0 <= i < regions@.len() ==> (#[trigger] regions@[i]).page_count * 4096 <= u64::MAX,
        sizes_fit(coalesced(regions@)),
    ensures
        r@.len() == coalesced(regions@).len(),
        forall|i: int|
            0 <= i < r@.len() ==> {
                &&& (#[trigger] r@[i]).addr == coalesced(regions@)[i].addr
                &&& r@[i].size == coalesced(regions@)[i].size
                &&& r@[i].kind == coalesced(regions@)[i].kind
            },
{
    let mut out: Vec<E820Entry> = Vec::new();
    let mut i: usize = 0;
    while i < regions.len()
        invariant
            i <= regions@.len(),
            forall|k: int| 0 <= k < regions@.len() ==> (#[trigger] regions@[k]).page_count * 4096 <= u64::MAX,
            sizes_fit(coalesced(regions@)),
            out@.len() == coalesced(regions@.take(i as int)).len(),
            forall|k: int|
                0 <= k < out@.len() ==> {
                    &&& (#[trigger] out@[k]).addr == coalesced(regions@.take(i as int))[k].addr
                    &&& out@[k].size == coalesced(regions@.take(i as int))[k].size
                    &&& out@[k].kind == coalesced(regions@.take(i as int))[k].kind
                },
        decreases regions@.len() - i,
    {
        let ghost pre = regions@.take(i as int);
        let ghost next = regions@.take(i + 1);
        assert(next.drop_last() =~= pre);
        assert(next.last() == regions@[i as int]);
        let desc = regions[i];
        let kind = e820_type(desc.ty);
        let addr = desc.phys_start;
        let size = desc.page_count * 0x1000;
        if size != 0 {
            let n = out.len();
            let mut merged = false;
            if n > 0 {
                let last = out[n - 1];
                let last_end = last.addr.wrapping_add(last.size);
                if last.kind == kind && last_end == addr {
                    proof {
                        assert((last.addr + last.size) % 0x1_0000_0000_0000_0000 == last_end);
                        lemma_coalesced_grows(regions@, i + 1, n - 1);
                        assert(coalesced(next)[n - 1].size == last.size + size);
                    }
                    out.set(n - 1, E820Entry { addr: last.addr, size: last.size + size, kind: last.kind });
                    merged = true;
                }
            }
            if !merged {
                out.push(E820Entry { addr, size, kind });
            }
        }
        i = i + 1;
    }
    assert(regions@.take(i as int) =~= regions@);
    out
}

} // verus!
