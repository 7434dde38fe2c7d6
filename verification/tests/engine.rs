use myboot::arch::x86_64::boot_params::{e820, E820Entry, SetupHeader, HDRS_MAGIC};
use myboot::config::Config;
use myboot::engine::direct_boot::{e820_type, kernel_body_offset, read_setup_header, to_e820, MemRegion};
use myboot::engine::pipeline::{apply_cmdline_override, attempt_order, build_history, chainload_options,
    exclude_own_loader, is_own_loader, load_config, map_strategy, max_tries, plan_for, timeout_secs};
use myboot::graph::{BootEntry, BootGraph, BootMethod, DiskId, DiskNode, EfiPath, EntryId, EntryRole, Health, OsKind, OsNode, Reason};
use myboot::persistence::nvram::StateStore;
use myboot::policy::Strategy;
use myboot::providers::LaunchPlan;
use myboot::ports::mock::{MockFileStore, MockVarStore};

fn gen(g: u32, health: Health) -> BootEntry {
    let mut e = BootEntry::new(OsKind::NixOs, "gen", EntryRole::Generation(g), BootMethod::NixGeneration);
    e.kernel = Some(EfiPath(format!("\\EFI\\nixos\\{g}.efi")));
    e.health = health;
    e
}
fn graph_with(entries: Vec<BootEntry>) -> BootGraph {
    let mut g = BootGraph::new();
    let mut os = OsNode::new(OsKind::NixOs, "NixOS");
    for e in entries { os.push(e); }
    g.add_disk(DiskNode { id: DiskId(0), label: "d".to_string(), systems: vec![os] });
    g
}
fn id(g: u32) -> EntryId { EntryId::derive(OsKind::NixOs, &EntryRole::Generation(g), None) }

#[test]
fn config_drives_strategy_timeout_and_tries() {
    assert_eq!(map_strategy(&None), Strategy::LastGoodThenDefault);
    assert_eq!(timeout_secs(&None), 5);
    assert_eq!(max_tries(&None), 2);
    let c = Config::parse("default = \"x\"\npolicy = \"default\"\ntimeout = 9\n").ok();
    assert!(c.is_none(), "an undeclared, non-dynamic default is rejected");
    let c = Config::parse("default = \"nixos.current\"\npolicy = \"default\"\ntimeout = 9\n[transaction]\nmax_tries = 4\n").ok();
    assert_eq!(map_strategy(&c), Strategy::Default);
    assert_eq!(timeout_secs(&c), 9);
    assert_eq!(max_tries(&c), 4);
}

#[test]
fn history_takes_default_from_config_and_last_good_from_nvram() {
    let mut vs = MockVarStore::new();
    let c = Config::parse("default = \"nixos.current\"\n").ok();
    let h = build_history(&vs, &c);
    assert_eq!(h.configured_default.unwrap().as_str(), "nixos.current");
    assert!(h.last_good.is_none() && h.one_shot.is_none());
    StateStore::new(&mut vs).set_last_good(&id(7)).unwrap();
    let h = build_history(&vs, &None);
    assert!(h.configured_default.is_none());
    assert_eq!(h.last_good.unwrap(), id(7));
}

#[test]
fn config_is_loaded_from_the_esp() {
    assert!(load_config(&MockFileStore::new()).is_none());
    let fs = MockFileStore::new().with_file("\\EFI\\MyBoot\\config.toml", b"default = \"nixos.current\"\n");
    assert_eq!(load_config(&fs).unwrap().default, "nixos.current");
    let bad = MockFileStore::new().with_file("\\EFI\\MyBoot\\config.toml", &[0xff, 0xfe]);
    assert!(load_config(&bad).is_none());
}

#[test]
fn attempt_order_starts_with_the_choice_and_covers_every_bootable_entry() {
    let g = graph_with(vec![
        gen(1, Health::Degraded(Reason::new("x"))),
        gen(2, Health::Healthy),
        gen(3, Health::Unbootable(Reason::new("x"))),
        gen(4, Health::Healthy),
    ]);
    assert_eq!(attempt_order(&g, &id(4)), vec![id(4), id(2), id(1)]);
    assert_eq!(attempt_order(&g, &id(9)), vec![id(9), id(2), id(4), id(1)]);
}

#[test]
fn plans_and_overrides() {
    let g = graph_with(vec![gen(5, Health::Healthy)]);
    let plan = plan_for(&g, &id(5)).unwrap();
    assert_eq!(plan, LaunchPlan::Chainload { image: EfiPath("\\EFI\\nixos\\5.efi".to_string()), options: None, initrd: None });
    assert!(plan_for(&g, &id(6)).is_none());
    let edited = apply_cmdline_override(plan.clone(), Some("quiet"));
    assert_eq!(edited, LaunchPlan::Chainload { image: EfiPath("\\EFI\\nixos\\5.efi".to_string()), options: Some("quiet".to_string()), initrd: None });
    assert_eq!(apply_cmdline_override(plan.clone(), Some("")), plan);
    assert_eq!(apply_cmdline_override(plan.clone(), None), plan);
    let direct = LaunchPlan::DirectKernel { kernel: EfiPath("\\k".to_string()), initrd: None, cmdline: Some("a".to_string()) };
    assert_eq!(apply_cmdline_override(direct, Some("b")),
        LaunchPlan::DirectKernel { kernel: EfiPath("\\k".to_string()), initrd: None, cmdline: Some("b".to_string()) });
}

#[test]
fn chainload_options_append_the_initrd() {
    assert_eq!(chainload_options(None, None), "");
    assert_eq!(chainload_options(Some("ro quiet".to_string()), None), "ro quiet");
    assert_eq!(chainload_options(None, Some(EfiPath("\\initrd".to_string()))), "initrd=\\initrd");
    assert_eq!(chainload_options(Some("ro".to_string()), Some(EfiPath("\\i".to_string()))), "ro initrd=\\i");
}

#[test]
fn own_loader_is_excluded_only_on_its_own_volume() {
    let mut own = BootEntry::new(OsKind::GenericEfi, "EFI Fallback Loader", EntryRole::Default, BootMethod::EfiChainload);
    own.loader = Some(EfiPath("\\efi\\boot\\bootx64.efi".to_string()));
    own.volume = Some("volMINE".to_string());
    let mut other = own.clone();
    other.volume = Some("volISO".to_string());
    assert!(is_own_loader(&own, "volMINE"));
    assert!(!is_own_loader(&other, "volMINE"));
    let mut g = BootGraph::new();
    let mut os = OsNode::new(OsKind::GenericEfi, "EFI");
    os.push(own);
    os.push(other);
    g.add_disk(DiskNode { id: DiskId(0), label: "d".to_string(), systems: vec![os] });
    exclude_own_loader(&mut g, "volMINE");
    assert_eq!(g.len(), 1);
    assert_eq!(g.entries()[0].volume.as_deref(), Some("volISO"));
}

#[test]
fn kernel_header_is_read_from_the_image() {
    assert!(read_setup_header(&[0u8; 0x200]).is_none());
    let mut img = vec![0u8; 0x400];
    img[0x1f1] = 0; // setup_sects 0 means 4
    img[0x1fe] = 0x55; img[0x1ff] = 0xAA;
    img[0x202..0x206].copy_from_slice(b"HdrS");
    img[0x236] = 1; // xloadflags bit 0
    let h = read_setup_header(&img).unwrap();
    assert!(h.is_valid());
    assert!(h.has_64bit_entry());
    assert_eq!(h.header, HDRS_MAGIC);
    assert_eq!(kernel_body_offset(&h), 5 * 512);
    let mut h2 = SetupHeader::default();
    h2.setup_sects = 30;
    assert_eq!(kernel_body_offset(&h2), 31 * 512);
}

#[test]
fn memory_map_becomes_a_compact_e820_table() {
    assert_eq!(e820_type(7), e820::RAM);
    assert_eq!(e820_type(2), e820::RAM);
    assert_eq!(e820_type(9), e820::ACPI);
    assert_eq!(e820_type(10), e820::NVS);
    assert_eq!(e820_type(8), e820::UNUSABLE);
    assert_eq!(e820_type(11), e820::RESERVED);
    let map = vec![
        MemRegion { ty: 7, phys_start: 0, page_count: 2 },
        MemRegion { ty: 3, phys_start: 0x2000, page_count: 1 },
        MemRegion { ty: 0, phys_start: 0x3000, page_count: 1 },
        MemRegion { ty: 7, phys_start: 0x9000, page_count: 0 },
        MemRegion { ty: 7, phys_start: 0x10000, page_count: 4 },
    ];
    assert_eq!(to_e820(&map), vec![
        E820Entry { addr: 0, size: 0x3000, kind: e820::RAM },
        E820Entry { addr: 0x3000, size: 0x1000, kind: e820::RESERVED },
        E820Entry { addr: 0x10000, size: 0x4000, kind: e820::RAM },
    ]);
}

use myboot::engine::console::{edit_step, headless_choice, input_event, Countdown, EditStep, InputEvent, Key};
use myboot::policy::{decide, History};

#[test]
fn keys_map_to_menu_events() {
    assert_eq!(input_event(Key::Special(0x01)), Some(InputEvent::Up));
    assert_eq!(input_event(Key::Special(0x02)), Some(InputEvent::Down));
    assert_eq!(input_event(Key::Special(0x17)), Some(InputEvent::Escape));
    assert_eq!(input_event(Key::Printable(0x0D)), Some(InputEvent::Enter));
    assert_eq!(input_event(Key::Printable(b'E' as u16)), Some(InputEvent::Edit));
    assert_eq!(input_event(Key::Printable(b'r' as u16)), Some(InputEvent::Recovery));
    assert_eq!(input_event(Key::Printable(b'F' as u16)), Some(InputEvent::Firmware));
    assert_eq!(input_event(Key::Printable(b's' as u16)), Some(InputEvent::Shell));
    assert_eq!(input_event(Key::Printable(b'x' as u16)), None);
    assert_eq!(input_event(Key::Special(0x03)), None);
}

#[test]
fn command_line_editing() {
    let mut line: Vec<char> = "ro".chars().collect();
    assert_eq!(edit_step(&mut line, Key::Printable(b' ' as u16)), EditStep::Continue);
    assert_eq!(edit_step(&mut line, Key::Printable(b'q' as u16)), EditStep::Continue);
    assert_eq!(edit_step(&mut line, Key::Printable(0x08)), EditStep::Continue);
    assert_eq!(edit_step(&mut line, Key::Printable(0xD800)), EditStep::Continue);
    assert_eq!(line.iter().collect::<String>(), "ro ");
    assert_eq!(edit_step(&mut line, Key::Printable(0x0D)), EditStep::Accept);
    assert_eq!(edit_step(&mut line, Key::Special(0x17)), EditStep::Cancel);
    let mut empty: Vec<char> = Vec::new();
    edit_step(&mut empty, Key::Printable(0x08));
    assert!(empty.is_empty());
}

#[test]
fn countdown_expires_on_the_last_second_unless_a_key_is_pressed() {
    let mut c = Countdown::new(3);
    assert_eq!(c.remaining(), Some(3));
    assert!(!c.on_tick());
    assert!(!c.on_tick());
    assert_eq!(c.remaining(), Some(1));
    assert!(c.on_tick());
    let mut k = Countdown::new(3);
    k.on_key();
    assert_eq!(k.remaining(), None);
    for _ in 0..5 { assert!(!k.on_tick()); }
    let mut z = Countdown::new(0);
    assert!(!z.on_tick());
}

#[test]
fn headless_choice_follows_the_decision_else_the_first_bootable() {
    let g = graph_with(vec![gen(1, Health::Unbootable(Reason::new("x"))), gen(2, Health::Degraded(Reason::new("y"))), gen(3, Health::Healthy)]);
    let d = decide(&g, &History::default(), Strategy::Default);
    assert_eq!(headless_choice(&g, &d), Some(id(3)));
    assert_eq!(headless_choice(&g, &None), Some(id(2)));
    let none = graph_with(vec![gen(1, Health::Unknown)]);
    assert_eq!(headless_choice(&none, &None), None);
}

use myboot::engine::direct_boot::kernel_body_start;
use myboot::engine::pipeline::next_handoff;
use myboot::engine::console::{initial_cursor, move_cursor};

#[test]
fn a_kernel_image_that_ends_before_its_body_is_refused() {
    let mut img = vec![0u8; 0x400];
    img[0x1f1] = 0;
    let h = read_setup_header(&img).unwrap();
    assert_eq!(kernel_body_start(&img, &h), None);
    let exact = vec![0u8; 5 * 512];
    assert_eq!(kernel_body_start(&exact, &h), Some(5 * 512));
    let long = vec![0u8; 5 * 512 + 1];
    assert_eq!(kernel_body_start(&long, &h), Some(5 * 512));
}

#[test]
fn a_failed_handoff_falls_through_to_the_next_plannable_candidate() {
    let mut unplannable = gen(10, Health::Healthy);
    unplannable.kernel = None;
    let mut g = graph_with(vec![gen(12, Health::Healthy), unplannable, gen(11, Health::Healthy)]);
    g.disks[0].systems[0].entries[2].volume = Some("volB".to_string());
    let candidates = vec![id(12), id(10), id(11)];
    let (k, _, vol) = next_handoff(&g, &candidates, 0).unwrap();
    assert_eq!(k, 0);
    assert_eq!(vol, None);
    // the first hand-off failed: the next that can be planned is the third
    let (k, _, vol) = next_handoff(&g, &candidates, 1).unwrap();
    assert_eq!(k, 2);
    assert_eq!(vol.as_deref(), Some("volB"));
    assert!(next_handoff(&g, &candidates, 3).is_none());
}

#[test]
fn the_menu_cursor_starts_on_the_choice_and_stays_within_the_rows() {
    let g = graph_with(vec![gen(1, Health::Healthy), gen(2, Health::Unbootable(Reason::new("x"))), gen(3, Health::Healthy)]);
    let d = decide(&g, &History::default(), Strategy::Default);
    let start = initial_cursor(&g, &d);
    assert_eq!(g.bootable()[start].id, d.as_ref().unwrap().chosen);
    assert_eq!(initial_cursor(&g, &None), 0);
    assert_eq!(move_cursor(0, 2, InputEvent::Up), 0);
    assert_eq!(move_cursor(0, 2, InputEvent::Down), 1);
    assert_eq!(move_cursor(1, 2, InputEvent::Down), 1);
    assert_eq!(move_cursor(1, 2, InputEvent::Enter), 1);
}
