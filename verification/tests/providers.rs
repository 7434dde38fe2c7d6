use myboot::graph::{BootEntry, BootMethod, EfiPath, EntryRole, Health, OsKind};
use myboot::providers::{provider_for, BootProvider, LaunchPlan, PlanError, Provider, Registry};

fn win() -> BootEntry {
    BootEntry::new(OsKind::Windows, "Windows", EntryRole::Default, BootMethod::WindowsBootManager)
        .with_loader(OsKind::Windows, EfiPath("\\EFI\\Microsoft\\Boot\\bootmgfw.efi".to_string()))
}
fn nixgen() -> BootEntry {
    let mut e = BootEntry::new(OsKind::NixOs, "gen128", EntryRole::Generation(128), BootMethod::NixGeneration);
    e.kernel = Some(EfiPath("\\EFI\\nixos\\bzImage".to_string()));
    e.initrd = Some(EfiPath("\\EFI\\nixos\\initrd".to_string()));
    e.cmdline = Some("init=/nix/init loglevel=4".to_string());
    e
}
fn recov() -> BootEntry {
    BootEntry::new(OsKind::Recovery, "WinRE", EntryRole::Recovery, BootMethod::EfiChainload)
        .with_loader(OsKind::Recovery, EfiPath("\\EFI\\Microsoft\\Recovery\\bootmgfw.efi".to_string()))
}

#[test]
fn registry_routes_each_entry_to_one_provider() {
    let reg = Registry::with_builtins();
    assert_eq!(reg.resolve(&win()).unwrap().kind(), OsKind::Windows);
    assert_eq!(reg.resolve(&nixgen()).unwrap().kind(), OsKind::NixOs);
    assert_eq!(reg.resolve(&recov()).unwrap().kind(), OsKind::Recovery);
}

#[test]
fn windows_plans_a_chainload() {
    let p = provider_for(&win()).unwrap();
    assert_eq!(p.plan(&win()).unwrap(),
               LaunchPlan::Chainload { image: EfiPath("\\EFI\\Microsoft\\Boot\\bootmgfw.efi".to_string()), options: None, initrd: None });
}

#[test]
fn nixos_generation_chainloads_kernel_with_cmdline_and_initrd() {
    let e = nixgen();
    let p = provider_for(&e).unwrap();
    match p.plan(&e).unwrap() {
        LaunchPlan::Chainload { image, options, initrd } => {
            assert_eq!(image.0, "\\EFI\\nixos\\bzImage");
            assert_eq!(options.as_deref(), Some("init=/nix/init loglevel=4"));
            assert_eq!(initrd.unwrap().0, "\\EFI\\nixos\\initrd");
        }
        other => panic!("expected chainload, got {other:?}"),
    }
}

#[test]
fn linux_direct_produces_direct_kernel_plan() {
    let mut e = BootEntry::new(OsKind::Linux, "linux", EntryRole::Default, BootMethod::LinuxDirect);
    e.kernel = Some(EfiPath("\\vmlinuz".to_string()));
    e.initrd = Some(EfiPath("\\initrd".to_string()));
    let p = provider_for(&e).unwrap();
    assert!(matches!(p.plan(&e).unwrap(), LaunchPlan::DirectKernel { .. }));
}

#[test]
fn validate_flags_missing_kernel_as_unbootable() {
    let e = nixgen();
    let none_present = |_: &str| false;
    let p = provider_for(&e).unwrap();
    assert!(matches!(p.validate(&e, &none_present), Health::Unbootable(_)));
    // kernel present but initrd missing → degraded
    let only_kernel = |path: &str| path == "\\EFI\\nixos\\bzImage";
    assert!(matches!(p.validate(&e, &only_kernel), Health::Degraded(_)));
}

#[test]
fn missing_loader_is_not_launchable() {
    let e = BootEntry::new(OsKind::Windows, "w", EntryRole::Default, BootMethod::WindowsBootManager);
    let p = provider_for(&e).unwrap();
    assert!(matches!(p.plan(&e), Err(PlanError::NotLaunchable(_))));
}

#[test]
fn provider_for_agrees_with_the_registry() {
    let reg = Registry::with_builtins();
    let mut generic = BootEntry::new(OsKind::GenericEfi, "g", EntryRole::Default, BootMethod::EfiChainload);
    generic.loader = Some(EfiPath("\\EFI\\x\\y.efi".to_string()));
    let stub = BootEntry::new(OsKind::Linux, "s", EntryRole::Default, BootMethod::LinuxEfiStub);
    for e in [win(), nixgen(), recov(), generic.clone(), stub] {
        assert_eq!(reg.resolve(&e), provider_for(&e));
    }
    assert_eq!(provider_for(&generic), Some(Provider::Generic));
    assert_eq!(Provider::Generic.plan(&generic).unwrap(),
        LaunchPlan::Chainload { image: EfiPath("\\EFI\\x\\y.efi".to_string()), options: None, initrd: None });
}

#[test]
fn linux_provider_refuses_other_methods_and_recovery_without_path_is_degraded() {
    let mut e = BootEntry::new(OsKind::Linux, "l", EntryRole::Default, BootMethod::EfiChainload);
    e.kernel = Some(EfiPath("\\k".to_string()));
    assert_eq!(Provider::Linux.plan(&e), Err(PlanError::WrongProvider));
    let r = BootEntry::new(OsKind::Recovery, "r", EntryRole::Recovery, BootMethod::EfiChainload);
    let all = |_: &str| true;
    assert!(matches!(Provider::Recovery.validate(&r, &all), Health::Degraded(_)));
    assert_eq!(Provider::Windows.validate(&win(), &all), Health::Healthy);
}
