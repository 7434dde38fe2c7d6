//! The Linux x86 boot-protocol data structures: the "zero page"
//! (`boot_params`), its embedded `setup_header`, and the E820 memory map,
//! laid out exactly as the kernel reads them at hand-off. The engine fills
//! them from the kernel image, the command line, the initrd and the
//! firmware memory map; the hand-off trampoline consumes the finished page.
use vstd::prelude::*;
use crate::arch::x86_64::boot_params::le::{fields_bytes, fields_at, fits, total, pow256, le_bytes,
    lemma_fields_roundtrip, lemma_fields_bytes_take, lemma_fields_at_take, lemma_le_bound, push_le, read_le};

pub mod e820;
pub mod le;

verus! {

/// Offset of the 64-bit kernel entry point from the loaded kernel base.
pub const ENTRY_OFFSET_64: u64 = 0x200;

/// Offset of `setup_header` within the kernel image and the zero page.
pub const SETUP_HEADER_OFFSET: usize = 0x1f1;

/// The `header` field of a valid image: "HdrS", little-endian.
pub const HDRS_MAGIC: u32 = 0x5372_6448;

/// `type_of_loader` for a loader without an assigned id.
pub const LOADER_TYPE_UNDEFINED: u8 = 0xFF;

/// LOADED_HIGH: the protected-mode kernel is loaded high (bit 0 of loadflags).
pub const LOADFLAG_LOADED_HIGH: u8 = 0x01;

/// CAN_USE_HEAP: `heap_end_ptr` is valid (bit 7 of loadflags).
pub const LOADFLAG_CAN_USE_HEAP: u8 = 0x80;

/// Maximum E820 entries the zero page holds.
pub const E820_MAX_ENTRIES: usize = 128;

/// Size of the zero page.
pub const ZERO_PAGE_SIZE: usize = 4096;

/// Offset of the E820 entry count (one byte) in the zero page.
pub const E820_ENTRIES_OFF: usize = 0x1e8;

/// Offset of the E820 table in the zero page.
pub const E820_TABLE_OFF: usize = 0x2d0;

/// Size of the packed setup header.
pub const SETUP_HEADER_SIZE: usize = 123;

/// Size of one packed E820 entry.
pub const E820_ENTRY_SIZE: usize = 20;

/// One E820 memory-map entry.
#[derive(Clone, Copy, Debug, Default, PartialEq, Eq, Structural)]
pub struct E820Entry {
    pub addr: u64,
    pub size: u64,
    pub kind: u32,
}

/// The setup header found at offset 0x1f1 of a kernel image. The packed
/// layout matches the kernel's header exactly.
#[derive(Clone, Copy, Debug, Default)]
pub struct SetupHeader {
    pub setup_sects: u8,
    pub root_flags: u16,
    pub syssize: u32,
    pub ram_size: u16,
    pub vid_mode: u16,
    pub root_dev: u16,
    pub boot_flag: u16,
    pub jump: u16,
    /// "HdrS".
    pub header: u32,
    pub version: u16,
    pub realmode_swtch: u32,
    pub start_sys_seg: u16,
    pub kernel_version: u16,
    pub type_of_loader: u8,
    pub loadflags: u8,
    pub setup_move_size: u16,
    pub code32_start: u32,
    /// Initrd physical address.
    pub ramdisk_image: u32,
    /// Initrd size in bytes.
    pub ramdisk_size: u32,
    pub bootsect_kludge: u32,
    pub heap_end_ptr: u16,
    pub ext_loader_ver: u8,
    pub ext_loader_type: u8,
    /// Physical address of the NUL-terminated command line.
    pub cmd_line_ptr: u32,
    pub initrd_addr_max: u32,
    pub kernel_alignment: u32,
    pub relocatable_kernel: u8,
    pub min_alignment: u8,
    pub xloadflags: u16,
    pub cmdline_size: u32,
    pub hardware_subarch: u32,
    pub hardware_subarch_data: u64,
    pub payload_offset: u32,
    pub payload_length: u32,
    pub setup_data: u64,
    pub pref_address: u64,
    pub init_size: u32,
    pub handover_offset: u32,
    pub kernel_info_offset: u32,
}

/// The byte widths of the setup header's fields, in order.
pub open spec fn header_widths() -> Seq<usize> {
    seq![1usize, 2, 4, 2, 2, 2, 2, 2, 4, 2, 4, 2, 2, 1, 1, 2, 4, 4, 4, 4, 2, 1, 1, 4, 4, 4, 1, 1, 2, 4, 4, 8, 4, 4, 8, 8, 4, 4, 4]
}

/// The setup header's field values, in order.
pub open spec fn header_values(h: SetupHeader) -> Seq<u64> {
    seq![
        h.setup_sects as u64,
        h.root_flags as u64,
        h.syssize as u64,
        h.ram_size as u64,
        h.vid_mode as u64,
        h.root_dev as u64,
        h.boot_flag as u64,
        h.jump as u64,
        h.header as u64,
        h.version as u64,
        h.realmode_swtch as u64,
        h.start_sys_seg as u64,
        h.kernel_version as u64,
        h.type_of_loader as u64,
        h.loadflags as u64,
        h.setup_move_size as u64,
        h.code32_start as u64,
        h.ramdisk_image as u64,
        h.ramdisk_size as u64,
        h.bootsect_kludge as u64,
        h.heap_end_ptr as u64,
        h.ext_loader_ver as u64,
        h.ext_loader_type as u64,
        h.cmd_line_ptr as u64,
        h.initrd_addr_max as u64,
        h.kernel_alignment as u64,
        h.relocatable_kernel as u64,
        h.min_alignment as u64,
        h.xloadflags as u64,
        h.cmdline_size as u64,
        h.hardware_subarch as u64,
        h.hardware_subarch_data as u64,
        h.payload_offset as u64,
        h.payload_length as u64,
        h.setup_data as u64,
        h.pref_address as u64,
        h.init_size as u64,
        h.handover_offset as u64,
        h.kernel_info_offset as u64,
    ]
}

/// The setup header whose field values are `vs`.
pub open spec fn header_of(vs: Seq<u64>) -> SetupHeader {
    SetupHeader {
        setup_sects: vs[0] as u8,
        root_flags: vs[1] as u16,
        syssize: vs[2] as u32,
        ram_size: vs[3] as u16,
        vid_mode: vs[4] as u16,
        root_dev: vs[5] as u16,
        boot_flag: vs[6] as u16,
        jump: vs[7] as u16,
        header: vs[8] as u32,
        version: vs[9] as u16,
        realmode_swtch: vs[10] as u32,
        start_sys_seg: vs[11] as u16,
        kernel_version: vs[12] as u16,
        type_of_loader: vs[13] as u8,
        loadflags: vs[14] as u8,
        setup_move_size: vs[15] as u16,
        code32_start: vs[16] as u32,
        ramdisk_image: vs[17] as u32,
        ramdisk_size: vs[18] as u32,
        bootsect_kludge: vs[19] as u32,
        heap_end_ptr: vs[20] as u16,
        ext_loader_ver: vs[21] as u8,
        ext_loader_type: vs[22] as u8,
        cmd_line_ptr: vs[23] as u32,
        initrd_addr_max: vs[24] as u32,
        kernel_alignment: vs[25] as u32,
        relocatable_kernel: vs[26] as u8,
        min_alignment: vs[27] as u8,
        xloadflags: vs[28] as u16,
        cmdline_size: vs[29] as u32,
        hardware_subarch: vs[30] as u32,
        hardware_subarch_data: vs[31] as u64,
        payload_offset: vs[32] as u32,
        payload_length: vs[33] as u32,
        setup_data: vs[34] as u64,
        pref_address: vs[35] as u64,
        init_size: vs[36] as u32,
        handover_offset: vs[37] as u32,
        kernel_info_offset: vs[38] as u32,
    }
}

/// The packed bytes of a setup header.
pub open spec fn header_bytes(h: SetupHeader) -> Seq<u8> {
    fields_bytes(header_widths(), header_values(h))
}

/// The setup header stored at `off` in `b`.
pub open spec fn header_at(b: Seq<u8>, off: int) -> SetupHeader {
    header_of(fields_at(b.skip(off), header_widths()))
}

/// The byte widths of an E820 entry's fields.
pub open spec fn entry_widths() -> Seq<usize> {
    seq![8usize, 8, 4]
}

/// An E820 entry's field values.
pub open spec fn entry_values(e: E820Entry) -> Seq<u64> {
    seq![e.addr, e.size, e.kind as u64]
}

/// The packed bytes of an E820 entry.
pub open spec fn entry_bytes(e: E820Entry) -> Seq<u8> {
    fields_bytes(entry_widths(), entry_values(e))
}

/// `b` with `s` written at `off`.
pub open spec fn splice(b: Seq<u8>, off: int, s: Seq<u8>) -> Seq<u8> {
    b.take(off) + s + b.skip(off + s.len())
}

proof fn lemma_widths_small()
    ensures
        forall|i: int| 0 <= i < header_widths().len() ==> 1 <= #[trigger] header_widths()[i] <= 8,
        forall|i: int| 0 <= i < entry_widths().len() ==> 1 <= #[trigger] entry_widths()[i] <= 8,
        total(header_widths()) == SETUP_HEADER_SIZE,
        total(entry_widths()) == E820_ENTRY_SIZE,
{
    reveal_with_fuel(total, 40);
}

proof fn lemma_header_fits(h: SetupHeader)
    ensures
        fits(header_widths(), header_values(h)),
        header_of(header_values(h)) == h,
{
    reveal_with_fuel(pow256, 9);
    assert(pow256(1) == 0x100);
    assert(pow256(2) == 0x1_0000);
    assert(pow256(4) == 0x1_0000_0000);
    assert(pow256(8) == 0x1_0000_0000_0000_0000);
}

proof fn lemma_entry_fits(e: E820Entry)
    ensures
        fits(entry_widths(), entry_values(e)),
{
    reveal_with_fuel(pow256, 9);
    assert(pow256(4) == 0x1_0000_0000);
    assert(pow256(8) == 0x1_0000_0000_0000_0000);
}

/// A setup header reads back as written, whatever surrounds it.
pub proof fn law_setup_header_roundtrip(b: Seq<u8>, off: int, h: SetupHeader)
    requires
        0 <= off,
        off + SETUP_HEADER_SIZE <= b.len(),
    ensures
        splice(b, off, header_bytes(h)).len() == b.len(),
        header_at(splice(b, off, header_bytes(h)), off) == h,
{
    lemma_header_fits(h);
    lemma_widths_small();
    let rest = b.skip(off + SETUP_HEADER_SIZE);
    lemma_fields_roundtrip(header_widths(), header_values(h), rest);
    assert(splice(b, off, header_bytes(h)).skip(off) =~= header_bytes(h) + rest);
}

impl SetupHeader {
    /// Whether this looks like a valid, bootable x86 kernel image header.
    pub fn is_valid(&self) -> (r: bool)
        ensures
            r == (self.header == HDRS_MAGIC && self.boot_flag == 0xAA55),
    {
        self.header == HDRS_MAGIC && self.boot_flag == 0xAA55
    }

    /// Whether the image has the 64-bit entry at 0x200 (XLF_KERNEL_64).
    pub fn has_64bit_entry(&self) -> (r: bool)
        ensures
            r == (self.xloadflags & 1 != 0),
    {
        self.xloadflags & 1 != 0
    }
}

fn header_widths_exec() -> (r: Vec<usize>)
    ensures
        r@ == header_widths(),
{
    let r = vec![1usize, 2, 4, 2, 2, 2, 2, 2, 4, 2, 4, 2, 2, 1, 1, 2, 4, 4, 4, 4, 2, 1, 1, 4, 4, 4, 1, 1, 2, 4, 4, 8, 4, 4, 8, 8, 4, 4, 4];
    assert(r@ =~= header_widths());
    r
}

fn entry_widths_exec() -> (r: Vec<usize>)
    ensures
        r@ == entry_widths(),
{
    let r = vec![8usize, 8, 4];
    assert(r@ =~= entry_widths());
    r
}

/// The packed bytes of a record with the given widths and values.
fn encode_fields(ws: &Vec<usize>, vs: &Vec<u64>) -> (r: Vec<u8>)
    requires
        ws@.len() == vs@.len(),
        forall|i: int| 0 <= i < ws@.len() ==> #[trigger] ws@[i] <= 8,
    ensures
        r@ == fields_bytes(ws@, vs@),
{
    let mut out: Vec<u8> = Vec::new();
    let mut i: usize = 0;
    while i < ws.len()
        invariant
            ws@.len() == vs@.len(),
            forall|k: int| 0 <= k < ws@.len() ==> #[trigger] ws@[k] <= 8,
            i <= ws@.len(),
            out@ == fields_bytes(ws@.take(i as int), vs@.take(i as int)),
        decreases ws@.len() - i,
    {
        proof {
            lemma_fields_bytes_take(ws@, vs@, i as int);
        }
        push_le(&mut out, ws[i], vs[i]);
        i = i + 1;
    }
    assert(ws@.take(i as int) =~= ws@);
    assert(vs@.take(i as int) =~= vs@);
    out
}

/// A prefix of a record is no longer than the record.
proof fn lemma_total_take_le(ws: Seq<usize>, i: int)
    requires
        0 <= i <= ws.len(),
    ensures
        total(ws.take(i)) <= total(ws),
    decreases ws.len() - i,
{
    if i < ws.len() {
        lemma_total_take_le(ws, i + 1);
        assert(ws.take(i + 1).drop_last() =~= ws.take(i));
    } else {
        assert(ws.take(i) =~= ws);
    }
}

/// The field values of a record with widths `ws` stored at `off` in `b`.
fn decode_fields(b: &[u8], off: usize, ws: &Vec<usize>) -> (r: Vec<u64>)
    requires
        forall|i: int| 0 <= i < ws@.len() ==> 1 <= #[trigger] ws@[i] <= 8,
        off + total(ws@) <= b@.len(),
    ensures
        r@ == fields_at(b@.skip(off as int), ws@),
{
    let mut out: Vec<u64> = Vec::new();
    let mut i: usize = 0;
    let mut pos: usize = off;
    let ghost tail = b@.skip(off as int);
    let n = b.len();
    while i < ws.len()
        invariant
            n == b@.len(),
            forall|k: int| 0 <= k < ws@.len() ==> 1 <= #[trigger] ws@[k] <= 8,
            off + total(ws@) <= b@.len(),
            tail == b@.skip(off as int),
            i <= ws@.len(),
            pos == off + total(ws@.take(i as int)),
            out@ == fields_at(tail, ws@.take(i as int)),
        decreases ws@.len() - i,
    {
        proof {
            lemma_fields_at_take(tail, ws@, i as int);
            lemma_total_take_le(ws@, i + 1);
            assert(tail.subrange(total(ws@.take(i as int)) as int, total(ws@.take(i as int)) + ws@[i as int])
                =~= b@.subrange(pos as int, pos + ws@[i as int]));
        }
        let v = read_le(b, pos, ws[i]);
        out.push(v);
        pos = pos + ws[i];
        i = i + 1;
    }
    assert(ws@.take(i as int) =~= ws@);
    out
}

proof fn lemma_fields_at_len(b: Seq<u8>, ws: Seq<usize>)
    ensures
        fields_at(b, ws).len() == ws.len(),
    decreases ws.len(),
{
    if ws.len() > 0 {
        lemma_fields_at_len(b, ws.drop_last());
    }
}

/// The packed bytes of a setup header.
fn encode_header(h: &SetupHeader) -> (r: Vec<u8>)
    ensures
        r@ == header_bytes(*h),
        r@.len() == SETUP_HEADER_SIZE,
{
    let ws = header_widths_exec();
    let vs = vec![
        h.setup_sects as u64,
        h.root_flags as u64,
        h.syssize as u64,
        h.ram_size as u64,
        h.vid_mode as u64,
        h.root_dev as u64,
        h.boot_flag as u64,
        h.jump as u64,
        h.header as u64,
        h.version as u64,
        h.realmode_swtch as u64,
        h.start_sys_seg as u64,
        h.kernel_version as u64,
        h.type_of_loader as u64,
        h.loadflags as u64,
        h.setup_move_size as u64,
        h.code32_start as u64,
        h.ramdisk_image as u64,
        h.ramdisk_size as u64,
        h.bootsect_kludge as u64,
        h.heap_end_ptr as u64,
        h.ext_loader_ver as u64,
        h.ext_loader_type as u64,
        h.cmd_line_ptr as u64,
        h.initrd_addr_max as u64,
        h.kernel_alignment as u64,
        h.relocatable_kernel as u64,
        h.min_alignment as u64,
        h.xloadflags as u64,
        h.cmdline_size as u64,
        h.hardware_subarch as u64,
        h.hardware_subarch_data as u64,
        h.payload_offset as u64,
        h.payload_length as u64,
        h.setup_data as u64,
        h.pref_address as u64,
        h.init_size as u64,
        h.handover_offset as u64,
        h.kernel_info_offset as u64,
    ];
    assert(vs@ =~= header_values(*h));
    proof {
        lemma_widths_small();
    }
    let r = encode_fields(&ws, &vs);
    proof {
        lemma_header_fits(*h);
        lemma_fields_roundtrip(header_widths(), header_values(*h), Seq::empty());
    }
    r
}

/// The packed bytes of an E820 entry.
fn encode_entry(e: &E820Entry) -> (r: Vec<u8>)
    ensures
        r@ == entry_bytes(*e),
        r@.len() == E820_ENTRY_SIZE,
{
    let ws = entry_widths_exec();
    let vs = vec![e.addr, e.size, e.kind as u64];
    assert(vs@ =~= entry_values(*e));
    proof {
        lemma_widths_small();
    }
    let r = encode_fields(&ws, &vs);
    proof {
        lemma_entry_fits(*e);
        lemma_fields_roundtrip(entry_widths(), entry_values(*e), Seq::empty());
    }
    r
}

/// The setup header stored at `off` in `b`.
pub(crate) fn decode_header(b: &[u8], off: usize) -> (r: SetupHeader)
    requires
        off + SETUP_HEADER_SIZE <= b@.len(),
    ensures
        r == header_at(b@, off as int),
{
    let ws = header_widths_exec();
    proof {
        lemma_widths_small();
    }
    let vs = decode_fields(b, off, &ws);
    proof {
        lemma_fields_at_len(b@.skip(off as int), header_widths());
    }
    SetupHeader {
        setup_sects: vs[0] as u8,
        root_flags: vs[1] as u16,
        syssize: vs[2] as u32,
        ram_size: vs[3] as u16,
        vid_mode: vs[4] as u16,
        root_dev: vs[5] as u16,
        boot_flag: vs[6] as u16,
        jump: vs[7] as u16,
        header: vs[8] as u32,
        version: vs[9] as u16,
        realmode_swtch: vs[10] as u32,
        start_sys_seg: vs[11] as u16,
        kernel_version: vs[12] as u16,
        type_of_loader: vs[13] as u8,
        loadflags: vs[14] as u8,
        setup_move_size: vs[15] as u16,
        code32_start: vs[16] as u32,
        ramdisk_image: vs[17] as u32,
        ramdisk_size: vs[18] as u32,
        bootsect_kludge: vs[19] as u32,
        heap_end_ptr: vs[20] as u16,
        ext_loader_ver: vs[21] as u8,
        ext_loader_type: vs[22] as u8,
        cmd_line_ptr: vs[23] as u32,
        initrd_addr_max: vs[24] as u32,
        kernel_alignment: vs[25] as u32,
        relocatable_kernel: vs[26] as u8,
        min_alignment: vs[27] as u8,
        xloadflags: vs[28] as u16,
        cmdline_size: vs[29] as u32,
        hardware_subarch: vs[30] as u32,
        hardware_subarch_data: vs[31] as u64,
        payload_offset: vs[32] as u32,
        payload_length: vs[33] as u32,
        setup_data: vs[34] as u64,
        pref_address: vs[35] as u64,
        init_size: vs[36] as u32,
        handover_offset: vs[37] as u32,
        kernel_info_offset: vs[38] as u32,
    }
}

/// The setup header with the loader-owned fields patched: the loader
/// type, the loaded-high and can-use-heap flags, the command line and the
/// ramdisk.
pub open spec fn loader_patched(h: SetupHeader, cmd_line_ptr: u32, ramdisk_image: u32, ramdisk_size: u32) -> SetupHeader {
    SetupHeader {
        type_of_loader: LOADER_TYPE_UNDEFINED,
        loadflags: h.loadflags | (LOADFLAG_LOADED_HIGH | LOADFLAG_CAN_USE_HEAP),
        cmd_line_ptr,
        ramdisk_image,
        ramdisk_size,
        ..h
    }
}

/// The zero page after writing the E820 table `entries` (truncated to the
/// maximum) and its count into `b`.
pub open spec fn with_e820(b: Seq<u8>, entries: Seq<E820Entry>, r: Seq<u8>) -> bool {
    let n = if entries.len() < E820_MAX_ENTRIES { entries.len() } else { E820_MAX_ENTRIES as nat };
    &&& r.len() == b.len()
    &&& r[E820_ENTRIES_OFF as int] == n as u8
    &&& forall|i: int, j: int|
        0 <= i < n && 0 <= j < E820_ENTRY_SIZE ==> r[E820_TABLE_OFF + E820_ENTRY_SIZE * i + j]
            == #[trigger] entry_bytes(entries[i])[j]
    &&& forall|k: int|
        0 <= k < b.len() && k != E820_ENTRIES_OFF && !(E820_TABLE_OFF <= k < E820_TABLE_OFF
            + E820_ENTRY_SIZE * n) ==> #[trigger] r[k] == b[k]
}

/// A copy of `b`.
fn copy_bytes(b: &Vec<u8>) -> (r: Vec<u8>)
    ensures
        r@ == b@,
{
    let mut out: Vec<u8> = Vec::new();
    let mut i: usize = 0;
    while i < b.len()
        invariant
            i <= b@.len(),
            out@ == b@.take(i as int),
        decreases b@.len() - i,
    {
        out.push(b[i]);
        i = i + 1;
        assert(out@ =~= b@.take(i as int));
    }
    assert(b@.take(i as int) =~= b@);
    out
}

/// Write `s` into `b` at `off`.
fn write_into(b: &mut Vec<u8>, off: usize, s: &Vec<u8>)
    requires
        off + s@.len() <= old(b)@.len(),
    ensures
        final(b)@ == splice(old(b)@, off as int, s@),
{
    let ghost orig = b@;
    let mut i: usize = 0;
    let n = b.len();
    while i < s.len()
        invariant
            n == orig.len(),
            off + s@.len() <= orig.len(),
            i <= s@.len(),
            b@.len() == orig.len(),
            forall|k: int| 0 <= k < orig.len() ==> #[trigger] b@[k] == if off <= k < off + i {
                s@[k - off]
            } else {
                orig[k]
            },
        decreases s@.len() - i,
    {
        b.set(off + i, s[i]);
        i = i + 1;
    }
    assert(b@ =~= splice(orig, off as int, s@));
}

/// The zero page: a fixed 4 KiB block with the fields the loader writes at
/// their exact offsets.
pub struct BootParams {
    bytes: Vec<u8>,
}

impl BootParams {
    #[verifier::type_invariant]
    spec fn page_sized(&self) -> bool {
        self.bytes@.len() == ZERO_PAGE_SIZE
    }

    /// The bytes of the page.
    pub closed spec fn bytes(&self) -> Seq<u8> {
        self.bytes@
    }

    /// A zeroed page.
    pub fn new() -> (r: BootParams)
        ensures
            r.bytes() == Seq::new(ZERO_PAGE_SIZE as nat, |i: int| 0u8),
    {
        let mut bytes: Vec<u8> = Vec::new();
        let mut i: usize = 0;
        while i < ZERO_PAGE_SIZE
            invariant
                i <= ZERO_PAGE_SIZE,
                bytes@ == Seq::new(i as nat, |k: int| 0u8),
            decreases ZERO_PAGE_SIZE - i,
        {
            bytes.push(0u8);
            i = i + 1;
            assert(bytes@ =~= Seq::new(i as nat, |k: int| 0u8));
        }
        BootParams { bytes }
    }

    /// The page's bytes, for the hand-off (its base goes to the kernel).
    pub fn as_bytes(&self) -> (r: &[u8])
        ensures
            r@ == self.bytes(),
            r@.len() == ZERO_PAGE_SIZE,
    {
        proof {
            use_type_invariant(self);
        }
        self.bytes.as_slice()
    }

    /// Write `s` at `off`.
    fn write_at(&mut self, off: usize, s: &Vec<u8>)
        requires
            off + s@.len() <= ZERO_PAGE_SIZE,
        ensures
            final(self).bytes() == splice(old(self).bytes(), off as int, s@),
    {
        proof {
            use_type_invariant(&*self);
        }
        let mut b = copy_bytes(&self.bytes);
        write_into(&mut b, off, s);
        self.bytes = b;
    }

    /// Copy a setup header into the page at offset 0x1f1.
    pub fn set_setup_header(&mut self, hdr: &SetupHeader)
        ensures
            final(self).bytes() == splice(old(self).bytes(), SETUP_HEADER_OFFSET as int, header_bytes(*hdr)),
    {
        let enc = encode_header(hdr);
        self.write_at(SETUP_HEADER_OFFSET, &enc);
    }

    /// Read the setup header back out of the page.
    pub fn setup_header(&self) -> (r: SetupHeader)
        ensures
            r == header_at(self.bytes(), SETUP_HEADER_OFFSET as int),
    {
        proof {
            use_type_invariant(self);
        }
        decode_header(self.bytes.as_slice(), SETUP_HEADER_OFFSET)
    }

    /// Patch the loader-owned setup header fields: the loader type, the
    /// load flags, the command line and the ramdisk.
    pub fn set_loader_fields(&mut self, cmd_line_ptr: u32, ramdisk_image: u32, ramdisk_size: u32)
        ensures
            final(self).bytes() == splice(
                old(self).bytes(),
                SETUP_HEADER_OFFSET as int,
                header_bytes(
                    loader_patched(
                        header_at(old(self).bytes(), SETUP_HEADER_OFFSET as int),
                        cmd_line_ptr,
                        ramdisk_image,
                        ramdisk_size,
                    ),
                ),
            ),
    {
        let mut hdr = self.setup_header();
        hdr.type_of_loader = LOADER_TYPE_UNDEFINED;
        hdr.loadflags = hdr.loadflags | (LOADFLAG_LOADED_HIGH | LOADFLAG_CAN_USE_HEAP);
        hdr.cmd_line_ptr = cmd_line_ptr;
        hdr.ramdisk_image = ramdisk_image;
        hdr.ramdisk_size = ramdisk_size;
        self.set_setup_header(&hdr);
    }

    /// Write the E820 table and its entry count, keeping at most
    /// [`E820_MAX_ENTRIES`] entries.
    pub fn set_e820(&mut self, entries: &[E820Entry])
        ensures
            with_e820(old(self).bytes(), entries@, final(self).bytes()),
    {
        proof {
            use_type_invariant(&*self);
        }
        let n: usize = if entries.len() < E820_MAX_ENTRIES {
            entries.len()
        } else {
            E820_MAX_ENTRIES
        };
        let ghost orig = self.bytes@;
        let mut bytes = copy_bytes(&self.bytes);
        bytes.set(E820_ENTRIES_OFF, n as u8);
        let mut i: usize = 0;
        while i < n
            invariant
                n <= E820_MAX_ENTRIES,
                n <= entries@.len(),
                n == (if entries@.len() < E820_MAX_ENTRIES { entries@.len() } else { E820_MAX_ENTRIES as nat }),
                orig.len() == ZERO_PAGE_SIZE,
                i <= n,
                bytes@.len() == ZERO_PAGE_SIZE,
                bytes@[E820_ENTRIES_OFF as int] == n as u8,
                forall|a: int, j: int|
                    0 <= a < i && 0 <= j < E820_ENTRY_SIZE ==> bytes@[E820_TABLE_OFF + E820_ENTRY_SIZE * a + j]
                        == #[trigger] entry_bytes(entries@[a])[j],
                forall|k: int|
                    0 <= k < ZERO_PAGE_SIZE && k != E820_ENTRIES_OFF && !(E820_TABLE_OFF <= k < E820_TABLE_OFF
                        + E820_ENTRY_SIZE * i) ==> #[trigger] bytes@[k] == orig[k],
            decreases n - i,
        {
            let enc = encode_entry(&entries[i]);
            let off = E820_TABLE_OFF + E820_ENTRY_SIZE * i;
            let ghost before = bytes@;
            let mut j: usize = 0;
            while j < E820_ENTRY_SIZE
                invariant
                    enc@ == entry_bytes(entries@[i as int]),
                    enc@.len() == E820_ENTRY_SIZE,
                    off == E820_TABLE_OFF + E820_ENTRY_SIZE * i,
                    i < n <= E820_MAX_ENTRIES,
                    j <= E820_ENTRY_SIZE,
                    bytes@.len() == ZERO_PAGE_SIZE,
                    before.len() == ZERO_PAGE_SIZE,
                    forall|k: int| 0 <= k < ZERO_PAGE_SIZE ==> #[trigger] bytes@[k] == if off <= k < off + j {
                        enc@[k - off]
                    } else {
                        before[k]
                    },
                decreases E820_ENTRY_SIZE - j,
            {
                bytes.set(off + j, enc[j]);
                j = j + 1;
            }
            proof {
                assert forall|a: int, jj: int|
                    0 <= a < i + 1 && 0 <= jj < E820_ENTRY_SIZE implies bytes@[E820_TABLE_OFF + E820_ENTRY_SIZE * a + jj]
                        == #[trigger] entry_bytes(entries@[a])[jj] by {
                    if a < i {
                        assert(E820_TABLE_OFF + E820_ENTRY_SIZE * a + jj < off) by (nonlinear_arith)
                            requires a < i, jj < E820_ENTRY_SIZE, off == E820_TABLE_OFF + E820_ENTRY_SIZE * i;
                        assert(before[E820_TABLE_OFF + E820_ENTRY_SIZE * a + jj] == entry_bytes(entries@[a])[jj]);
                    } else {
                        assert(E820_TABLE_OFF + E820_ENTRY_SIZE * a + jj == off + jj);
                    }
                }
            }
            i = i + 1;
        }
        proof {
            assert forall|k: int|
                0 <= k < ZERO_PAGE_SIZE && k != E820_ENTRIES_OFF && !(E820_TABLE_OFF <= k < E820_TABLE_OFF
                    + E820_ENTRY_SIZE * n) implies #[trigger] bytes@[k] == orig[k] by {}
        }
        self.bytes = bytes;
    }

    /// The number of E820 entries recorded.
    pub fn e820_count(&self) -> (r: u8)
        ensures
            r == self.bytes()[E820_ENTRIES_OFF as int],
    {
        proof {
            use_type_invariant(self);
        }
        self.bytes[E820_ENTRIES_OFF]
    }
}

/// Patching the loader fields leaves every other header field as it was:
/// the header read back is the old one with exactly those fields changed.
pub proof fn law_loader_fields_patch_in_place(b: Seq<u8>, cmd_line_ptr: u32, ramdisk_image: u32, ramdisk_size: u32)
    requires
        b.len() == ZERO_PAGE_SIZE,
    ensures
        header_at(
            splice(
                b,
                SETUP_HEADER_OFFSET as int,
                header_bytes(loader_patched(header_at(b, SETUP_HEADER_OFFSET as int), cmd_line_ptr, ramdisk_image, ramdisk_size)),
            ),
            SETUP_HEADER_OFFSET as int,
        ) == loader_patched(header_at(b, SETUP_HEADER_OFFSET as int), cmd_line_ptr, ramdisk_image, ramdisk_size),
{
    law_setup_header_roundtrip(
        b,
        SETUP_HEADER_OFFSET as int,
        loader_patched(header_at(b, SETUP_HEADER_OFFSET as int), cmd_line_ptr, ramdisk_image, ramdisk_size),
    );
}

/// The recorded E820 count is the number of entries written, capped at the
/// page's capacity.
pub proof fn law_e820_count_is_capped(b: Seq<u8>, entries: Seq<E820Entry>, r: Seq<u8>)
    requires
        with_e820(b, entries, r),
    ensures
        r[E820_ENTRIES_OFF as int] as nat == if entries.len() < E820_MAX_ENTRIES {
            entries.len()
        } else {
            E820_MAX_ENTRIES as nat
        },
{
}

} // verus!
