use myboot::graph::{BootEntry, BootGraph, BootMethod, DiskId, DiskNode, EfiPath, EntryId, EntryRole, Health, OsKind, OsNode, Reason};

fn gen(kind: OsKind, g: u32) -> BootEntry {
    BootEntry::new(kind, &format!("Generation {g}"), EntryRole::Generation(g), BootMethod::NixGeneration)
}

#[test]
fn entry_id_is_stable_and_order_independent() {
    let a = EntryId::derive(OsKind::NixOs, &EntryRole::Generation(128), Some("/EFI/nixos/x.efi"));
    let b = EntryId::derive(OsKind::NixOs, &EntryRole::Generation(128), Some("\\EFI\\nixos\\X.efi"));
    assert_eq!(a, b, "path separators/case must normalise to a stable id");
    let c = EntryId::derive(OsKind::NixOs, &EntryRole::Generation(127), Some("/EFI/nixos/x.efi"));
    assert_ne!(a, c, "different generation must yield a different id");
}

#[test]
fn health_gates_bootability() {
    assert!(Health::Healthy.is_bootable());
    assert!(Health::Degraded(Reason::new("kernel changed")).is_bootable());
    assert!(!Health::Unbootable(Reason::new("missing kernel")).is_bootable());
    assert!(!Health::Unknown.is_bootable());
    assert!(Health::Healthy.rank() > Health::Degraded(Reason::new("x")).rank());
    assert!(Health::Unknown.rank() > Health::Unbootable(Reason::new("x")).rank());
}

#[test]
fn find_and_annotate_by_stable_id() {
    let mut g = BootGraph::new();
    let mut os = OsNode::new(OsKind::NixOs, "NixOS");
    os.push(gen(OsKind::NixOs, 128));
    os.push(gen(OsKind::NixOs, 127));
    g.add_disk(DiskNode { id: DiskId(0), label: "NVMe0".to_string(), systems: vec![os] });

    let id = EntryId::derive(OsKind::NixOs, &EntryRole::Generation(128), None);
    assert!(g.find(&id).is_some());
    g.find_mut(&id).unwrap().health = Health::Healthy;
    assert_eq!(g.find(&id).unwrap().health, Health::Healthy);
    assert_eq!(g.len(), 2);
}

#[test]
fn canonical_order_puts_newest_generation_first() {
    let mut g = BootGraph::new();
    let mut os = OsNode::new(OsKind::NixOs, "NixOS");
    os.push(gen(OsKind::NixOs, 126));
    os.push(gen(OsKind::NixOs, 128));
    os.push(gen(OsKind::NixOs, 127));
    g.add_disk(DiskNode { id: DiskId(0), label: "d".to_string(), systems: vec![os] });
    g.sort_canonical();
    let gens: Vec<_> = g.disks[0].systems[0].entries.iter()
        .map(|e| match &e.role { EntryRole::Generation(x) => *x, _ => 0 }).collect();
    assert_eq!(gens, vec![128, 127, 126]);
}

#[test]
fn bootable_filter_excludes_unbootable() {
    let mut g = BootGraph::new();
    let mut os = OsNode::new(OsKind::NixOs, "NixOS");
    let mut good = gen(OsKind::NixOs, 128); good.health = Health::Healthy;
    let mut bad = gen(OsKind::NixOs, 127); bad.health = Health::Unbootable(Reason::new("x"));
    os.push(good); os.push(bad);
    g.add_disk(DiskNode { id: DiskId(0), label: "d".to_string(), systems: vec![os] });
    assert_eq!(g.bootable().len(), 1);
}

#[test]
fn retain_entries_drops_matched_and_prunes_empty_nodes() {
    let mut g = BootGraph::new();
    let mut a = OsNode::new(OsKind::GenericEfi, "A");
    let mut e_own = BootEntry::new(OsKind::GenericEfi, "EFI Fallback Loader", EntryRole::Default, BootMethod::EfiChainload);
    e_own.loader = Some(EfiPath("\\EFI\\BOOT\\BOOTX64.EFI".to_string()));
    e_own.volume = Some("volMINE".to_string());
    a.push(e_own);
    let mut b = OsNode::new(OsKind::GenericEfi, "B");
    let mut e_iso = BootEntry::new(OsKind::GenericEfi, "EFI Fallback Loader", EntryRole::Default, BootMethod::EfiChainload);
    e_iso.loader = Some(EfiPath("\\EFI\\BOOT\\BOOTX64.EFI".to_string()));
    e_iso.volume = Some("volISO".to_string());
    b.push(e_iso);
    g.add_disk(DiskNode { id: DiskId(0), label: "d".to_string(), systems: vec![a, b] });
    assert_eq!(g.len(), 2);

    // Drop only the boot manager's own entry (volMINE + fallback loader); the ISO's stays.
    g.retain_entries(|e: &BootEntry| {
        let own = e.volume.as_deref() == Some("volMINE")
            && e.loader.as_ref().map(|p| p.0.eq_ignore_ascii_case("\\EFI\\BOOT\\BOOTX64.EFI")).unwrap_or(false);
        !own
    });
    assert_eq!(g.len(), 1, "only the own entry is removed");
    assert_eq!(g.entries()[0].volume.as_deref(), Some("volISO"));
    assert_eq!(g.disks[0].systems.len(), 1, "the emptied OS node was pruned");
}

#[test]
fn scoped_id_separates_volumes_and_none_volume_is_plain() {
    let plain = EntryId::derive(OsKind::GenericEfi, &EntryRole::Default, Some("\\EFI\\BOOT\\BOOTX64.EFI"));
    let none = EntryId::derive_scoped(OsKind::GenericEfi, &EntryRole::Default, Some("\\EFI\\BOOT\\BOOTX64.EFI"), None);
    let a = EntryId::derive_scoped(OsKind::GenericEfi, &EntryRole::Default, Some("\\EFI\\BOOT\\BOOTX64.EFI"), Some("volA"));
    let b = EntryId::derive_scoped(OsKind::GenericEfi, &EntryRole::Default, Some("\\EFI\\BOOT\\BOOTX64.EFI"), Some("volB"));
    assert_eq!(plain, none);
    assert_ne!(a, b);
    assert_eq!(plain.as_str(), "efi:default:/efi/boot/bootx64.efi");
    assert_eq!(a.as_str(), "efi:default:/efi/boot/bootx64.efi@vola");
}

#[test]
fn canonical_sort_keeps_every_entry_and_orders_ties_by_title() {
    let mut g = BootGraph::new();
    let mut os = OsNode::new(OsKind::Linux, "Linux");
    os.push(BootEntry::new(OsKind::Linux, "b", EntryRole::Default, BootMethod::LinuxEfiStub));
    os.push(BootEntry::new(OsKind::Linux, "a", EntryRole::Default, BootMethod::LinuxEfiStub));
    os.push(BootEntry::new(OsKind::Linux, "c", EntryRole::Recovery, BootMethod::LinuxEfiStub));
    g.add_disk(DiskNode { id: DiskId(0), label: "d".to_string(), systems: vec![os] });
    g.sort_canonical();
    let titles: Vec<String> = g.entries().iter().map(|e| e.title.clone()).collect();
    assert_eq!(titles.len(), 3);
    assert_eq!(&titles[0..2], &["a".to_string(), "b".to_string()]);
    assert!(titles.contains(&"c".to_string()));
}

#[test]
fn retain_entries_keeps_the_surviving_nodes_as_they_were() {
    let mut g = BootGraph::new();
    let mut a = OsNode::new(OsKind::Linux, "Fedora");
    a.push(gen(OsKind::Linux, 1));
    let mut b = OsNode::new(OsKind::NixOs, "NixOS");
    b.push(gen(OsKind::NixOs, 2));
    b.push(gen(OsKind::NixOs, 3));
    g.add_disk(DiskNode { id: DiskId(3), label: "one".to_string(), systems: vec![a] });
    g.add_disk(DiskNode { id: DiskId(4), label: "two".to_string(), systems: vec![b] });
    g.retain_entries(|e: &BootEntry| e.role != EntryRole::Generation(1) && e.role != EntryRole::Generation(2));
    assert_eq!(g.disks.len(), 1);
    assert_eq!(g.disks[0].id, DiskId(4));
    assert_eq!(g.disks[0].label, "two");
    assert_eq!(g.disks[0].systems[0].kind, OsKind::NixOs);
    assert_eq!(g.disks[0].systems[0].name, "NixOS");
    assert_eq!(g.disks[0].systems[0].entries.len(), 1);
}
