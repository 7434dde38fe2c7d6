use myboot::discovery::{build_graph, discover, discover_multi, scan_volume, RawEntry};
use myboot::discovery::bls::parse_conf;
use myboot::discovery::bootspec::{generation_entries, generation_of};
use myboot::discovery::distros::parse_pretty_name;
use myboot::discovery::esp::{FALLBACK_LOADER, WINDOWS_LOADER};
use myboot::discovery::json::parse;
use myboot::discovery::refine::refine_methods;
use myboot::discovery::{bls, bootspec, distros, esp, variables};
use myboot::graph::{BootMethod, EntryRole, OsKind};
use myboot::persistence::loadopt::LoadOption;
use myboot::ports::{VarNamespace, VarStore};
use myboot::ports::mock::{MockFileStore, MockVarStore};

// ---- BLS ----

const CONF: &str = "title Fedora 39\nversion 6.6.0\nlinux /6a/linux\ninitrd /6a/initrd\noptions root=UUID=abc ro\n";

#[test]
fn parses_a_type1_entry() {
    let e = parse_conf(CONF.as_bytes()).unwrap();
    assert_eq!(e.kind, OsKind::Linux);
    assert_eq!(e.title, "Fedora 39 \u{2014} 6.6.0"); // version folded in for distinctness
    assert_eq!(e.kernel.as_deref(), Some("\\6a\\linux"));
    assert_eq!(e.initrd.as_deref(), Some("\\6a\\initrd"));
    assert_eq!(e.cmdline.as_deref(), Some("root=UUID=abc ro"));
    assert_eq!(e.role, EntryRole::Kernel("6.6.0".into()));
}

#[test]
fn entry_without_kernel_is_rejected() {
    assert!(parse_conf(b"title Broken\noptions ro\n").is_none());
}

#[test]
fn nixos_generation_gets_a_distinct_title_and_groups_under_nixos() {
    let conf = "title NixOS\nversion Generation 23 NixOS Zokor 26.11.20260810.2fcb964 (Linux 7.1.8), built on 2026-09-01\nlinux /efi/nixos/abc-linux.efi\ninitrd /efi/nixos/abc-initrd.efi\noptions init=/nix/store/xxx/init\nsort-key nixos\n";
    let e = parse_conf(conf.as_bytes()).unwrap();
    assert_eq!(e.kind, OsKind::NixOs, "recognised as NixOS, not generic Linux");
    assert_eq!(e.role, EntryRole::Generation(23));
    assert!(e.title.contains("Generation 23"), "title carries the generation");
    assert!(e.title.contains("2026-09-01"), "title carries the build date: {}", e.title);
}

#[test]
fn two_nixos_generations_are_distinct() {
    let g23 = parse_conf(b"title NixOS\nversion Generation 23 NixOS (Linux 7.1.8), built on 2026-09-01\nlinux /a/l\n").unwrap();
    let g22 = parse_conf(b"title NixOS\nversion Generation 22 NixOS (Linux 7.1.8), built on 2026-08-22\nlinux /b/l\n").unwrap();
    assert_ne!(g23.title, g22.title);
    assert_ne!(g23.role, g22.role);
}

#[test]
fn generic_version_is_folded_into_the_title() {
    let e = parse_conf(CONF.as_bytes()).unwrap(); // Fedora 39 / version 6.6.0
    assert_eq!(e.kind, OsKind::Linux);
    assert!(e.title.contains("Fedora 39") && e.title.contains("6.6.0"), "title: {}", e.title);
}

#[test]
fn bls_discover_reads_every_conf_in_the_entries_dir() {
    let fs = MockFileStore::new()
        .with_file("\\loader\\entries\\a.conf", CONF.as_bytes())
        .with_file("\\loader\\entries\\notes.txt", b"title x\nlinux /k\n")
        .with_file("\\loader\\entries\\b.conf", b"title Broken\n");
    let entries = bls::discover(&fs);
    assert_eq!(entries.len(), 1);
    assert_eq!(entries[0].title, "Fedora 39 \u{2014} 6.6.0");
}

// ---- bootspec ----

const BS: &str = r#"{ "org.nixos.bootspec.v1": {
    "label": "NixOS 24.05",
    "kernel": "/EFI/nixos/k-128/bzImage",
    "kernelParams": ["init=/nix/init", "loglevel=4"],
    "initrd": "/EFI/nixos/k-128/initrd"
  },
  "org.nixos.specialisation.v1": {
    "gaming": { "org.nixos.bootspec.v1": { "label": "NixOS gaming", "kernel": "/EFI/nixos/k-128/bzImage", "initrd": "/EFI/nixos/k-128/initrd", "kernelParams": [] } }
  } }"#;

#[test]
fn discovers_generation_and_specialisation() {
    let fs = MockFileStore::new()
        .with_file("\\EFI\\nixos\\generation-128\\bootspec.json", BS.as_bytes());
    let entries = bootspec::discover(&fs);
    assert_eq!(entries.len(), 2, "base generation + one specialisation");
    let base = entries.iter().find(|e| matches!(e.role, EntryRole::Generation(128))).unwrap();
    assert_eq!(base.kernel.as_deref(), Some("\\EFI\\nixos\\k-128\\bzImage"));
    assert_eq!(base.cmdline.as_deref(), Some("init=/nix/init loglevel=4"));
    assert!(entries.iter().any(|e| matches!(&e.role, EntryRole::Specialisation { parent: 128, name } if name == "gaming")));
}

#[test]
fn one_generation_directory_yields_its_entries() {
    let es = generation_entries("generation-128", BS.as_bytes());
    assert_eq!(es.len(), 2);
    assert_eq!(es[0].role, EntryRole::Generation(128));
    assert_eq!(es[0].title, "NixOS 24.05 (gen 128)");
    assert!(generation_entries("generation-128", b"not json").is_empty());
    assert!(generation_entries("generation-128", &[0xff, b'{', b'}']).is_empty());
}

#[test]
fn generation_number_parsing() {
    assert_eq!(generation_of("generation-128"), Some(128));
    assert_eq!(generation_of("128"), Some(128));
    assert_eq!(generation_of("nixos"), None);
}

// ---- build ----

fn raw(kind: OsKind, title: &str, role: EntryRole, method: BootMethod, loader: Option<&str>) -> RawEntry {
    let mut r = RawEntry::new(kind, "os", title, role, method);
    r.loader = loader.map(Into::into);
    if r.loader.is_none() {
        r.kernel = Some("\\EFI\\nixos\\kernel.efi".into());
    }
    r
}

#[test]
fn groups_and_orders_by_os_and_generation() {
    let raws = vec![
        raw(OsKind::NixOs, "gen126", EntryRole::Generation(126), BootMethod::NixGeneration, None),
        raw(OsKind::Windows, "Windows Boot Manager", EntryRole::Default, BootMethod::WindowsBootManager, Some("\\EFI\\Microsoft\\Boot\\bootmgfw.efi")),
        raw(OsKind::NixOs, "gen128", EntryRole::Generation(128), BootMethod::NixGeneration, None),
    ];
    let g = build_graph(raws);
    assert_eq!(g.len(), 3);
    let nix = g.disks[0].systems.iter().find(|o| o.kind == OsKind::NixOs).unwrap();
    let gens: Vec<u32> = nix.entries.iter().filter_map(|e| match &e.role {
        EntryRole::Generation(x) => Some(*x), _ => None }).collect();
    assert_eq!(gens, vec![128, 126]);
}

#[test]
fn windows_from_two_sources_collapses_via_canonical_loader() {
    let loader = "\\EFI\\Microsoft\\Boot\\bootmgfw.efi";
    let from_vars = raw(OsKind::Windows, "Windows Boot Manager", EntryRole::Default, BootMethod::WindowsBootManager, Some(loader));
    let from_esp = raw(OsKind::Windows, "Windows Boot Manager", EntryRole::Default, BootMethod::WindowsBootManager, Some(loader));
    let g = build_graph(vec![from_vars, from_esp]);
    assert_eq!(g.len(), 1, "same id must collapse to one entry");
    assert!(g.entries()[0].loader.is_some());
}

#[test]
fn nixos_generation_merges_partial_info_from_two_sources() {
    let mut a = raw(OsKind::NixOs, "gen128", EntryRole::Generation(128), BootMethod::NixGeneration, None);
    a.kernel = Some("\\EFI\\nixos\\k\\bzImage".into());
    let mut b = raw(OsKind::NixOs, "NixOS 24.05 (gen 128)", EntryRole::Generation(128), BootMethod::NixGeneration, None);
    b.initrd = Some("\\EFI\\nixos\\k\\initrd".into());
    let g = build_graph(vec![a, b]);
    assert_eq!(g.len(), 1, "same generation collapses to one entry");
    let e = g.entries()[0];
    assert!(e.kernel.is_some() && e.initrd.is_some(), "partial info merged");
    assert!(e.title.contains("24.05"), "richer title wins");
}

#[test]
fn entry_with_no_loader_and_no_kernel_is_dropped() {
    let mut orphan = RawEntry::new(OsKind::GenericEfi, "os", "UEFI HARDDISK", EntryRole::Default, BootMethod::EfiChainload);
    orphan.loader = None; // and no kernel
    let win = raw(OsKind::Windows, "Windows Boot Manager", EntryRole::Default, BootMethod::WindowsBootManager, Some("\\EFI\\Microsoft\\Boot\\bootmgfw.efi"));
    let g = build_graph(vec![orphan, win]);
    assert_eq!(g.len(), 1, "the loader-less, kernel-less entry is dropped");
    assert_eq!(g.entries()[0].title, "Windows Boot Manager");
}

#[test]
fn same_loader_path_on_two_volumes_stays_distinct() {
    let mut a = RawEntry::new(OsKind::GenericEfi, "os", "EFI Fallback A", EntryRole::Default, BootMethod::EfiChainload);
    a.loader = Some("\\EFI\\BOOT\\BOOTX64.EFI".into());
    a.volume = Some("volA".into());
    let mut b = RawEntry::new(OsKind::GenericEfi, "os", "EFI Fallback B", EntryRole::Default, BootMethod::EfiChainload);
    b.loader = Some("\\EFI\\BOOT\\BOOTX64.EFI".into());
    b.volume = Some("volB".into());
    let g = build_graph(vec![a, b]);
    assert_eq!(g.len(), 2, "same loader path on two volumes must be two entries");
}

#[test]
fn volumeless_twin_is_dropped_in_favor_of_volume_bearing() {
    let mut nvram = RawEntry::new(OsKind::Windows, "Windows", "Windows Boot Manager", EntryRole::Default, BootMethod::WindowsBootManager);
    nvram.loader = Some("\\EFI\\Microsoft\\Boot\\bootmgfw.efi".into());
    let mut esp = RawEntry::new(OsKind::Windows, "Windows", "Windows Boot Manager", EntryRole::Default, BootMethod::WindowsBootManager);
    esp.loader = Some("\\EFI\\Microsoft\\Boot\\bootmgfw.efi".into());
    esp.volume = Some("volA".into());
    let g = build_graph(vec![nvram, esp]);
    assert_eq!(g.len(), 1, "the volume-less NVRAM twin is dropped");
    assert!(g.entries()[0].volume.is_some(), "the surviving entry is volume-bearing");
}

#[test]
fn fallback_titles_are_tagged_by_volume_for_the_n_os_menu() {
    let mut a = RawEntry::new(OsKind::GenericEfi, "os", "EFI Fallback Loader", EntryRole::Default, BootMethod::EfiChainload);
    a.loader = Some("\\EFI\\BOOT\\BOOTX64.EFI".into());
    a.volume = Some("vol000000aaaaaa".into());
    let mut b = RawEntry::new(OsKind::GenericEfi, "os", "EFI Fallback Loader", EntryRole::Default, BootMethod::EfiChainload);
    b.loader = Some("\\EFI\\BOOT\\BOOTX64.EFI".into());
    b.volume = Some("vol000000bbbbbb".into());
    let g = build_graph(vec![a, b]);
    let titles: Vec<_> = g.entries().iter().map(|e| e.title.clone()).collect();
    assert_eq!(g.len(), 2);
    assert!(titles.iter().any(|t| t.ends_with("[aaaaaa]")), "titles: {titles:?}");
    assert!(titles.iter().any(|t| t.ends_with("[bbbbbb]")), "titles: {titles:?}");
}

#[test]
fn empty_input_builds_one_empty_system_disk() {
    let g = build_graph(Vec::new());
    assert_eq!(g.len(), 0);
    assert_eq!(g.disks.len(), 1);
    assert_eq!(g.disks[0].label, "system");
}

// ---- distros ----

#[test]
fn detects_known_distros_and_prefers_shim() {
    let fs = MockFileStore::new()
        .with_file("\\EFI\\ubuntu\\shimx64.efi", b"MZ")
        .with_file("\\EFI\\ubuntu\\grubx64.efi", b"MZ")
        .with_file("\\EFI\\kali\\grubx64.efi", b"MZ")
        .with_file("\\EFI\\Microsoft\\Boot\\bootmgfw.efi", b"MZ"); // ignored here
    let entries = distros::discover(&fs);
    let ubuntu = entries.iter().find(|e| e.title == "Ubuntu").unwrap();
    assert_eq!(ubuntu.loader.as_deref(), Some("\\EFI\\ubuntu\\shimx64.efi"), "shim preferred");
    assert!(entries.iter().any(|e| e.title == "Kali Linux"));
    assert!(!entries.iter().any(|e| e.title.contains("Microsoft")));
    assert!(entries.iter().all(|e| e.kind == OsKind::Linux && e.method == BootMethod::EfiChainload));
}

#[test]
fn reads_pretty_name_from_os_release_when_present() {
    let fs = MockFileStore::new()
        .with_file("\\EFI\\zorin\\grubx64.efi", b"MZ")
        .with_file("\\EFI\\zorin\\os-release", b"NAME=Zorin\nPRETTY_NAME=\"Zorin OS 17.1\"\n");
    let entries = distros::discover(&fs);
    let z = entries.iter().find(|e| e.loader.as_deref() == Some("\\EFI\\zorin\\grubx64.efi")).unwrap();
    assert_eq!(z.title, "Zorin OS 17.1", "exact edition from PRETTY_NAME");
}

#[test]
fn unknown_vendor_dir_with_loader_is_still_linux() {
    let fs = MockFileStore::new().with_file("\\EFI\\frobos\\grubx64.efi", b"MZ");
    let entries = distros::discover(&fs);
    assert_eq!(entries.len(), 1);
    assert_eq!(entries[0].title, "Frobos");
    assert_eq!(entries[0].kind, OsKind::Linux);
}

#[test]
fn vendor_dir_without_a_loader_is_skipped() {
    let fs = MockFileStore::new().with_file("\\EFI\\ubuntu\\README", b"x");
    assert!(distros::discover(&fs).is_empty());
}

#[test]
fn parse_pretty_name_is_total() {
    assert_eq!(parse_pretty_name("PRETTY_NAME=\"Kali GNU/Linux Rolling\"").as_deref(), Some("Kali GNU/Linux Rolling"));
    assert_eq!(parse_pretty_name("NAME=Debian\n"), None);
    assert_eq!(parse_pretty_name(""), None);
}

// ---- ESP ----

#[test]
fn finds_windows_when_present() {
    let fs = MockFileStore::new().with_file(WINDOWS_LOADER, b"MZ");
    let e = esp::discover(&fs);
    assert_eq!(e.len(), 1);
    assert_eq!(e[0].kind, OsKind::Windows);
    assert_eq!(e[0].loader.as_deref(), Some(WINDOWS_LOADER));
}

#[test]
fn empty_esp_yields_nothing() {
    assert!(esp::discover(&MockFileStore::new()).is_empty());
}

#[test]
fn names_the_fallback_from_disk_info() {
    let info = b"Ubuntu 26.04.1 LTS \"Plucky Puffin\" - Release amd64 (20260421)\n";
    let fs = MockFileStore::new()
        .with_file(FALLBACK_LOADER, b"MZ")
        .with_file("\\.disk\\info", info);
    let e = esp::discover(&fs);
    assert_eq!(e.len(), 1);
    assert_eq!(e[0].title, "Ubuntu 26.04.1 LTS", "clean product name, no codename/release suffix");
    assert_eq!(e[0].loader.as_deref(), Some(FALLBACK_LOADER));
}

#[test]
fn falls_back_to_generic_title_without_disk_info() {
    let fs = MockFileStore::new().with_file(FALLBACK_LOADER, b"MZ");
    let e = esp::discover(&fs);
    assert_eq!(e.len(), 1);
    assert_eq!(e[0].title, "EFI Fallback Loader");
}

#[test]
fn names_ubuntu_from_grub_cfg() {
    let cfg = b"menuentry \"Try or Install Ubuntu\" {\n  linux /casper/vmlinuz ---\n}\n";
    let fs = MockFileStore::new()
        .with_file(FALLBACK_LOADER, b"MZ")
        .with_file("\\EFI\\BOOT\\grub.cfg", cfg);
    let e = esp::discover(&fs);
    assert_eq!(e[0].title, "Ubuntu");
}

#[test]
fn names_parrot_from_grub_cfg_over_debian_base() {
    let cfg = b"# Parrot home Live Boot Menu\nmenuentry 'Parrot' { linux /live/vmlinuz boot=live }\n";
    let fs = MockFileStore::new()
        .with_file(FALLBACK_LOADER, b"MZ")
        .with_file("\\boot\\grub\\grub.cfg", cfg);
    let e = esp::discover(&fs);
    assert_eq!(e[0].title, "Parrot OS");
}

#[test]
fn names_from_boot_csv_label() {
    let csv = b"shimx64.efi,ubuntu,,This is the boot entry for ubuntu\n";
    let fs = MockFileStore::new()
        .with_file(FALLBACK_LOADER, b"MZ")
        .with_file("\\EFI\\BOOT\\BOOT.CSV", csv);
    let e = esp::discover(&fs);
    assert_eq!(e[0].title, "Ubuntu", "bare 'ubuntu' label prettified via marker table");
}

#[test]
fn names_by_scanning_the_loader_binary() {
    let mut loader = Vec::from(*b"MZ\x90\x00 GRUB image ");
    loader.extend_from_slice(b"prefix=(cd0)/casper stuff \x00\x01");
    let fs = MockFileStore::new().with_file(FALLBACK_LOADER, &loader);
    let e = esp::discover(&fs);
    assert_eq!(e[0].title, "Ubuntu", "casper marker in the binary maps to Ubuntu");
}

// ---- JSON ----

#[test]
fn parses_nested_bootspec_shape() {
    let j = parse(r#"
    { "org.nixos.bootspec.v1": {
        "label": "NixOS 24.05 (Linux 6.12)",
        "kernel": "/nix/store/aaa/bzImage",
        "kernelParams": ["init=/nix/store/xxx/init", "loglevel=4"],
        "initrd": "/nix/store/bbb/initrd",
        "toplevel": "/nix/store/ccc"
      },
      "org.nixos.specialisation.v1": {
        "gaming": { "org.nixos.bootspec.v1": { "label": "gaming", "kernel": "/k", "initrd": "/i", "kernelParams": [] } }
      }
    }"#).unwrap();
    let bs = j.path(&["org.nixos.bootspec.v1"]).unwrap();
    assert_eq!(bs.get("kernel").unwrap().as_str().unwrap(), "/nix/store/aaa/bzImage");
    let params = bs.get("kernelParams").unwrap().as_array().unwrap();
    assert_eq!(params.len(), 2);
    assert_eq!(params[0].as_str().unwrap(), "init=/nix/store/xxx/init");
    assert!(j.path(&["org.nixos.specialisation.v1", "gaming"]).is_some());
}

#[test]
fn total_on_garbage() {
    for s in ["", "{", "[1,2", "{\"a\":}", "nul", "\"unterminated", "trailing 1"] {
        let _ = parse(s); // must never panic
    }
    assert!(parse("{}").is_ok());
    assert!(parse("[]").is_ok());
    assert!(parse("truex").is_err()); // trailing garbage rejected
}

#[test]
fn json_string_escapes_are_decoded() {
    let j = parse(r#"{"a": "x\ny\u0041\\"}"#).unwrap();
    assert_eq!(j.get("a").unwrap().as_str().unwrap(), "x\nyA\\");
    assert!(parse(r#"{"a": 1.5e3, "b": -0, "c": null, "d": false}"#).is_ok());
    assert!(parse("1.2.3").is_err());
}

// ---- refine ----

fn linux_entry(kernel: &str) -> RawEntry {
    let mut e = RawEntry::new(OsKind::Linux, "Linux", "Linux", EntryRole::Default, BootMethod::LinuxEfiStub);
    e.kernel = Some(kernel.into());
    e
}

fn efi_stub_bytes() -> Vec<u8> {
    let mut b = vec![0u8; 0x100];
    b[0] = b'M'; b[1] = b'Z';
    let pe_off = 0x80u32;
    b[0x3C..0x40].copy_from_slice(&pe_off.to_le_bytes());
    let po = pe_off as usize;
    b[po..po + 4].copy_from_slice(b"PE\0\0");
    b[po + 24..po + 26].copy_from_slice(&0x20bu16.to_le_bytes());
    b[po + 92..po + 94].copy_from_slice(&10u16.to_le_bytes());
    b
}

#[test]
fn efi_stub_kernel_stays_efi_stub() {
    let fs = MockFileStore::new().with_file("\\k\\bzImage", &efi_stub_bytes());
    let out = refine_methods(vec![linux_entry("\\k\\bzImage")], &fs);
    assert_eq!(out[0].method, BootMethod::LinuxEfiStub);
}

#[test]
fn non_pe_kernel_becomes_direct() {
    let fs = MockFileStore::new().with_file("\\k\\vmlinux", b"\x7fELF and the rest");
    let out = refine_methods(vec![linux_entry("\\k\\vmlinux")], &fs);
    assert_eq!(out[0].method, BootMethod::LinuxDirect);
}

#[test]
fn unreadable_kernel_keeps_the_assumption() {
    let fs = MockFileStore::new(); // file absent
    let out = refine_methods(vec![linux_entry("\\k\\missing")], &fs);
    assert_eq!(out[0].method, BootMethod::LinuxEfiStub);
}

// ---- firmware variables ----

fn put_opt(vs: &mut MockVarStore, name: &str, desc: &str) {
    let bytes = LoadOption::new(desc, vec![1, 2, 3, 4]).encode().unwrap();
    vs.set(VarNamespace::Global, name, &bytes).unwrap();
}

#[test]
fn decodes_and_classifies_boot_options() {
    let mut vs = MockVarStore::new();
    put_opt(&mut vs, "Boot0000", "Windows Boot Manager");
    put_opt(&mut vs, "Boot0001", "ubuntu");
    vs.set(VarNamespace::Global, "BootOrder", &[0, 0]).unwrap(); // ignored (not Boot####)
    let entries = variables::discover(&vs);
    assert_eq!(entries.len(), 2);
    assert!(entries.iter().any(|e| e.kind == OsKind::Windows && e.method == BootMethod::WindowsBootManager));
    assert!(entries.iter().any(|e| e.kind == OsKind::Linux));
}

#[test]
fn ignores_non_boot_variables_and_bad_data() {
    let mut vs = MockVarStore::new();
    vs.set(VarNamespace::Global, "BootCurrent", &[0, 0]).unwrap();
    vs.set(VarNamespace::Global, "Boot0002", &[0xFF; 3]).unwrap(); // undecodable
    assert!(variables::discover(&vs).is_empty());
}

// ---- whole-machine discovery ----

#[test]
fn discover_merges_variables_and_esp() {
    let mut vs = MockVarStore::new();
    put_opt(&mut vs, "Boot0000", "Windows Boot Manager");
    let fs = MockFileStore::new().with_file(WINDOWS_LOADER, b"MZ");
    let g = discover(&vs, &fs);
    // the firmware option and the ESP probe name the same canonical loader
    assert_eq!(g.len(), 1);
    assert_eq!(g.entries()[0].loader.as_ref().unwrap().0, WINDOWS_LOADER);
}

#[test]
fn scan_volume_tags_every_entry_with_its_volume() {
    let fs = MockFileStore::new().with_file(FALLBACK_LOADER, b"MZ");
    let raw = scan_volume(&fs, Some("vol1"));
    assert_eq!(raw.len(), 1);
    assert_eq!(raw[0].volume.as_deref(), Some("vol1"));
    let untagged = scan_volume(&fs, None);
    assert_eq!(untagged[0].volume, None);
}

#[test]
fn discover_multi_keeps_same_loader_on_two_volumes_apart() {
    let vs = MockVarStore::new();
    let a = MockFileStore::new().with_file(FALLBACK_LOADER, b"MZ");
    let b = MockFileStore::new().with_file(FALLBACK_LOADER, b"MZ");
    let vols = vec![("vol000000aaaaaa".to_string(), &a), ("vol000000bbbbbb".to_string(), &b)];
    let g = discover_multi(&vs, &vols);
    assert_eq!(g.len(), 2);
    let titles: Vec<String> = g.entries().iter().map(|e| e.title.clone()).collect();
    assert!(titles.iter().any(|t| t.ends_with("[aaaaaa]")), "titles: {titles:?}");
}

#[test]
fn json_strings_keep_their_utf8_text() {
    let j = parse("\"\u{e9}\"").unwrap();
    assert_eq!(j.as_str(), Some("\u{e9}"));
    let j = parse("{\"label\": \"NixOS caf\\u00e9 \u{2603} ok\"}").unwrap();
    assert_eq!(j.get("label").unwrap().as_str().unwrap(), "NixOS caf\u{e9} \u{2603} ok");
}

#[test]
fn lowercase_hex_boot_option_names_are_ignored() {
    let mut vs = MockVarStore::new();
    put_opt(&mut vs, "Boot000a", "ubuntu");
    put_opt(&mut vs, "Boot000A", "Windows Boot Manager");
    let entries = variables::discover(&vs);
    assert_eq!(entries.len(), 1);
    assert_eq!(entries[0].kind, OsKind::Windows);
}

#[test]
fn distros_discover_lists_exactly_the_vendor_directories() {
    let fs = MockFileStore::new()
        .with_file("\\EFI\\ubuntu\\shimx64.efi", b"MZ")
        .with_file("\\EFI\\ubuntu\\grubx64.efi", b"MZ")
        .with_file("\\EFI\\kali\\grubx64.efi", b"MZ")
        .with_file("\\EFI\\Microsoft\\Boot\\bootmgfw.efi", b"MZ");
    let found = distros::discover(&fs);
    assert_eq!(found.len(), 2);
    assert!(found.iter().any(|e| e.title == "Ubuntu" && e.loader.as_deref() == Some("\\EFI\\ubuntu\\shimx64.efi")));
    assert!(found.iter().any(|e| e.title == "Kali Linux" && e.loader.as_deref() == Some("\\EFI\\kali\\grubx64.efi")));
}

#[test]
fn esp_fallback_is_named_from_disk_info() {
    let fs = MockFileStore::new()
        .with_file(FALLBACK_LOADER, b"MZ")
        .with_file("\\.disk\\info", b"Ubuntu 26.04.1 LTS \"Plucky Puffin\" - Release amd64 (20260421)\n");
    let found = esp::discover(&fs);
    assert_eq!(found.len(), 1);
    assert_eq!(found[0].title, "Ubuntu 26.04.1 LTS");
    assert_eq!(found[0].os_name, found[0].title);
    let bare = MockFileStore::new().with_file(FALLBACK_LOADER, b"MZ");
    assert_eq!(esp::discover(&bare)[0].title, "EFI Fallback Loader");
}

#[test]
fn discover_multi_accepts_an_uncuttable_id_on_a_volume_without_a_fallback() {
    let vs = MockVarStore::new();
    let a = MockFileStore::new().with_file("\\EFI\\ubuntu\\shimx64.efi", b"MZ");
    let vols = vec![("vol\u{e9}\u{e9}\u{e9}".to_string(), &a)];
    let g = discover_multi(&vs, &vols);
    assert_eq!(g.len(), 1);
    assert_eq!(g.entries()[0].title, "Ubuntu");
}
