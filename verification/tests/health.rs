use myboot::graph::{BootEntry, BootGraph, BootMethod, BootResult, DiskId, DiskNode, EfiPath, EntryRole, Health, OsKind, OsNode, Reason};
use myboot::health::{assess_all, assess_entry};
use myboot::ports::mock::MockFileStore;

fn win_entry() -> BootEntry {
    let mut e = BootEntry::new(OsKind::Windows, "Windows 11", EntryRole::Default, BootMethod::WindowsBootManager);
    e.loader = Some(EfiPath("\\EFI\\Microsoft\\Boot\\bootmgfw.efi".to_string()));
    e
}

#[test]
fn missing_loader_is_unbootable() {
    let fs = MockFileStore::new(); // empty ESP
    let h = assess_entry(&win_entry(), &fs);
    assert!(matches!(h, Health::Unbootable(_)));
    assert!(!h.is_bootable());
}

#[test]
fn present_loader_is_healthy() {
    let fs = MockFileStore::new().with_file("\\EFI\\Microsoft\\Boot\\bootmgfw.efi", b"MZ");
    let h = assess_entry(&win_entry(), &fs);
    assert_eq!(h, Health::Healthy);
}

#[test]
fn previous_failure_degrades_but_stays_bootable() {
    let fs = MockFileStore::new().with_file("\\EFI\\Microsoft\\Boot\\bootmgfw.efi", b"MZ");
    let mut e = win_entry();
    e.last_result = Some(BootResult::Failed);
    let h = assess_entry(&e, &fs);
    assert!(matches!(h, Health::Degraded(_)));
    assert!(h.is_bootable());
}

#[test]
fn missing_initrd_is_degraded_not_unbootable() {
    let fs = MockFileStore::new()
        .with_file("\\EFI\\nixos\\kernel.efi", b"MZ"); // kernel present, initrd absent
    let mut e = BootEntry::new(OsKind::NixOs, "gen", EntryRole::Generation(1), BootMethod::LinuxDirect);
    e.kernel = Some(EfiPath("\\EFI\\nixos\\kernel.efi".to_string()));
    e.initrd = Some(EfiPath("\\EFI\\nixos\\initrd".to_string()));
    let h = assess_entry(&e, &fs);
    assert!(matches!(h, Health::Degraded(_)));
}

#[test]
fn assess_all_annotates_graph_in_place() {
    let fs = MockFileStore::new().with_file("\\EFI\\Microsoft\\Boot\\bootmgfw.efi", b"MZ");
    let mut g = BootGraph::new();
    let mut os = OsNode::new(OsKind::Windows, "Windows");
    os.push(win_entry());
    g.add_disk(DiskNode { id: DiskId(0), label: "d".to_string(), systems: vec![os] });
    assess_all(&mut g, &fs);
    assert_eq!(g.entries()[0].health, Health::Healthy);
}

#[test]
fn health_reasons_name_the_missing_file() {
    let fs = MockFileStore::new();
    assert_eq!(assess_entry(&win_entry(), &fs),
        Health::Unbootable(Reason::new("loader missing: \\EFI\\Microsoft\\Boot\\bootmgfw.efi")));
    let mut k = BootEntry::new(OsKind::Linux, "l", EntryRole::Default, BootMethod::LinuxEfiStub);
    k.kernel = Some(EfiPath("\\vmlinuz".to_string()));
    assert_eq!(assess_entry(&k, &fs), Health::Unbootable(Reason::new("kernel missing: \\vmlinuz")));
    let fs2 = MockFileStore::new().with_file("\\vmlinuz", b"x");
    k.initrd = Some(EfiPath("\\initrd".to_string()));
    assert_eq!(assess_entry(&k, &fs2), Health::Degraded(Reason::new("initrd missing: \\initrd")));
    let mut f = BootEntry::new(OsKind::Linux, "l", EntryRole::Default, BootMethod::LinuxEfiStub);
    f.last_result = Some(BootResult::Failed);
    assert_eq!(assess_entry(&f, &fs), Health::Degraded(Reason::new("previous boot did not confirm")));
}

#[test]
fn assess_all_assesses_every_entry_even_with_a_repeated_id() {
    let fs = MockFileStore::new();
    let mut g = BootGraph::new();
    let mut os = OsNode::new(OsKind::Windows, "Windows");
    os.push(win_entry());
    os.push(win_entry());
    g.add_disk(DiskNode { id: DiskId(7), label: "disk".to_string(), systems: vec![os] });
    assess_all(&mut g, &fs);
    assert_eq!(g.len(), 2);
    for e in g.entries() {
        assert!(matches!(e.health, Health::Unbootable(_)));
    }
    assert_eq!(g.disks[0].label, "disk");
    assert_eq!(g.disks[0].systems[0].name, "Windows");
}
