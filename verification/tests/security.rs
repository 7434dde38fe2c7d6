use myboot::graph::{BootEntry, BootMethod, EntryRole, OsKind};
use myboot::security::{decide_launch, LaunchDecision, SecureBootState, Verification};
use myboot::platform::read_secure_boot;
use myboot::ports::{VarNamespace, VarStore};
use myboot::ports::mock::MockVarStore;

fn entry(method: BootMethod) -> BootEntry {
    BootEntry::new(OsKind::Linux, "e", EntryRole::Default, method)
}

#[test]
fn chainload_always_defers_to_firmware() {
    let e = entry(BootMethod::WindowsBootManager);
    assert_eq!(decide_launch(&e, SecureBootState::Enabled, Verification::NotChecked),
               LaunchDecision::DeferToFirmware);
}

#[test]
fn direct_load_requires_valid_signature_when_enforcing() {
    let e = entry(BootMethod::LinuxDirect);
    assert_eq!(decide_launch(&e, SecureBootState::Enabled, Verification::Valid),
               LaunchDecision::RequireOwnVerification);
    assert!(matches!(decide_launch(&e, SecureBootState::Enabled, Verification::Invalid),
               LaunchDecision::Refuse(_)));
    assert!(matches!(decide_launch(&e, SecureBootState::Enabled, Verification::NotChecked),
               LaunchDecision::Refuse(_)));
}

#[test]
fn direct_load_unverified_allowed_when_not_enforcing() {
    let e = entry(BootMethod::LinuxDirect);
    assert_eq!(decide_launch(&e, SecureBootState::Disabled, Verification::NotChecked),
               LaunchDecision::OwnLoadUnverified);
}

#[test]
fn decodes_firmware_bytes() {
    assert_eq!(SecureBootState::from_vars(Some(&[1]), Some(&[0])), SecureBootState::Enabled);
    assert_eq!(SecureBootState::from_vars(Some(&[0]), None), SecureBootState::Disabled);
    assert_eq!(SecureBootState::from_vars(Some(&[1]), Some(&[1])), SecureBootState::SetupMode);
    assert_eq!(SecureBootState::from_vars(None, None), SecureBootState::Unknown);
    assert!(SecureBootState::from_vars(Some(&[1]), None).is_enforcing());
}

#[test]
fn setup_mode_and_odd_bytes() {
    assert_eq!(SecureBootState::from_vars(None, Some(&[1])), SecureBootState::SetupMode);
    assert_eq!(SecureBootState::from_vars(Some(&[]), None), SecureBootState::Unknown);
    assert_eq!(SecureBootState::from_vars(Some(&[2]), Some(&[0])), SecureBootState::Unknown);
    assert!(!SecureBootState::SetupMode.is_enforcing());
    assert_eq!(decide_launch(&entry(BootMethod::LinuxDirect), SecureBootState::Enabled, Verification::Invalid),
               LaunchDecision::Refuse("signature invalid under Secure Boot"));
}

#[test]
fn secure_boot_variables_are_read_from_the_global_namespace() {
    let mut vs = MockVarStore::new();
    assert_eq!(read_secure_boot(&vs), (None, None));
    vs.set(VarNamespace::Global, "SecureBoot", &[1]).unwrap();
    vs.set(VarNamespace::Vendor, "SetupMode", &[1]).unwrap();
    let (sb, sm) = read_secure_boot(&vs);
    assert_eq!(sb, Some(vec![1]));
    assert_eq!(sm, None);
    assert_eq!(SecureBootState::from_vars(sb.as_deref(), sm.as_deref()), SecureBootState::Enabled);
}
