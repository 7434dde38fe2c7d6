use myboot::arch::x86_64::boot_params::{e820, BootParams, E820Entry, SetupHeader, E820_MAX_ENTRIES,
    HDRS_MAGIC, LOADER_TYPE_UNDEFINED, LOADFLAG_LOADED_HIGH, LOADFLAG_CAN_USE_HEAP};

#[test]
fn setup_header_validates_magic_and_boot_flag() {
    let mut h = SetupHeader::default();
    assert!(!h.is_valid());
    h.header = HDRS_MAGIC;
    h.boot_flag = 0xAA55;
    assert!(h.is_valid());
}

#[test]
fn xloadflags_reports_64bit_entry() {
    let mut h = SetupHeader::default();
    h.xloadflags = 0x1;
    assert!(h.has_64bit_entry());
    h.xloadflags = 0x0;
    assert!(!h.has_64bit_entry());
}

#[test]
fn boot_params_roundtrips_setup_header_at_0x1f1() {
    let mut bp = BootParams::new();
    let mut h = SetupHeader::default();
    h.header = HDRS_MAGIC;
    h.boot_flag = 0xAA55;
    h.cmd_line_ptr = 0x9_0000;
    bp.set_setup_header(&h);
    let back = bp.setup_header();
    assert!(back.is_valid());
    let ptr = back.cmd_line_ptr;
    assert_eq!(ptr, 0x9_0000);
}

#[test]
fn loader_fields_are_patched_in_place() {
    let mut bp = BootParams::new();
    let mut h = SetupHeader::default();
    h.header = HDRS_MAGIC; h.boot_flag = 0xAA55;
    bp.set_setup_header(&h);
    bp.set_loader_fields(0x20000, 0x1000000, 0x40000);
    let back = bp.setup_header();
    let (cl, ri, rs, lt) = (back.cmd_line_ptr, back.ramdisk_image, back.ramdisk_size, back.type_of_loader);
    assert_eq!(cl, 0x20000);
    assert_eq!(ri, 0x1000000);
    assert_eq!(rs, 0x40000);
    assert_eq!(lt, LOADER_TYPE_UNDEFINED);
    assert!(back.loadflags & LOADFLAG_LOADED_HIGH != 0);
}

fn read_entry(bytes: &[u8], off: usize) -> E820Entry {
    let raw = &bytes[off..off + 20];
    E820Entry {
        addr: u64::from_le_bytes(raw[0..8].try_into().unwrap()),
        size: u64::from_le_bytes(raw[8..16].try_into().unwrap()),
        kind: u32::from_le_bytes(raw[16..20].try_into().unwrap()),
    }
}

#[test]
fn e820_table_and_count_are_written() {
    let mut bp = BootParams::new();
    let entries = vec![
        E820Entry { addr: 0, size: 0x9_fc00, kind: e820::RAM },
        E820Entry { addr: 0x10_0000, size: 0x7000_0000, kind: e820::RAM },
        E820Entry { addr: 0xE000_0000, size: 0x1000_0000, kind: e820::RESERVED },
    ];
    bp.set_e820(&entries);
    assert_eq!(bp.e820_count(), 3);
    // read the second entry straight back out of the zero page
    let got = read_entry(bp.as_bytes(), 0x2d0 + 20);
    assert_eq!(got, E820Entry { addr: 0x10_0000, size: 0x7000_0000, kind: e820::RAM });
}

#[test]
fn e820_truncates_to_max() {
    let mut bp = BootParams::new();
    let many = vec![E820Entry { addr: 0, size: 1, kind: e820::RAM }; E820_MAX_ENTRIES + 10];
    bp.set_e820(&many);
    assert_eq!(bp.e820_count() as usize, E820_MAX_ENTRIES);
}

#[test]
fn setup_header_lands_at_its_exact_offsets() {
    let mut bp = BootParams::new();
    let mut h = SetupHeader::default();
    h.setup_sects = 0x1f;
    h.boot_flag = 0xAA55;
    h.header = HDRS_MAGIC;
    h.kernel_info_offset = 0x0102_0304;
    bp.set_setup_header(&h);
    let b = bp.as_bytes();
    assert_eq!(b.len(), 4096);
    assert_eq!(b[0x1f1], 0x1f);
    assert_eq!(&b[0x1fe..0x200], &[0x55, 0xAA]);
    assert_eq!(&b[0x202..0x206], b"HdrS");
    assert_eq!(&b[0x268..0x26c], &[0x04, 0x03, 0x02, 0x01]);
    assert_eq!(b[0x26c], 0);
    assert_eq!(b[0x1f0], 0);
}

#[test]
fn loader_flags_are_or_ed_in() {
    let mut bp = BootParams::new();
    let mut h = SetupHeader::default();
    h.loadflags = 0x20;
    bp.set_setup_header(&h);
    bp.set_loader_fields(1, 2, 3);
    let back = bp.setup_header();
    assert_eq!(back.loadflags, 0x20 | LOADFLAG_LOADED_HIGH | LOADFLAG_CAN_USE_HEAP);
}
