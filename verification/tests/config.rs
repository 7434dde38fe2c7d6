use myboot::config::{Config, ConfigError, PolicyKind, RollbackKind};
use myboot::config::reconcile::{apply, desired_from_read, desired_with_myboot_first, plan_boot_order, plan_from_read, restore,
    VAR_BOOT_ORDER};
use myboot::config::toml::parse;
use myboot::persistence::loadopt::{decode_boot_order, encode_boot_order};
use myboot::ports::{IoError, VarNamespace, VarStore};
use myboot::ports::mock::MockVarStore;

fn set_order(vs: &mut MockVarStore, order: &[u16]) {
    vs.set(VarNamespace::Global, VAR_BOOT_ORDER, &encode_boot_order(order)).unwrap();
}
fn get_order(vs: &MockVarStore) -> Vec<u16> {
    decode_boot_order(&vs.get(VarNamespace::Global, VAR_BOOT_ORDER).unwrap())
}

#[test]
fn noop_when_already_matching() {
    let mut vs = MockVarStore::new();
    set_order(&mut vs, &[0x0000, 0x0001]);
    let plan = plan_boot_order(&vs, &[0x0000, 0x0001]);
    assert!(plan.is_noop());
}

#[test]
fn repairs_drift_and_is_reversible() {
    // Firmware currently boots Windows (1) first; the boot manager is option 0.
    let mut vs = MockVarStore::new();
    set_order(&mut vs, &[0x0001, 0x0000, 0x0002]);

    let desired = desired_with_myboot_first(&vs, 0x0000);
    assert_eq!(desired, vec![0x0000, 0x0001, 0x0002]);

    let plan = plan_boot_order(&vs, &desired);
    assert!(!plan.is_noop());

    apply(&mut vs, &plan).unwrap();
    assert_eq!(get_order(&vs), vec![0x0000, 0x0001, 0x0002]);

    // rollback restores the exact prior order
    restore(&mut vs, &plan.snapshot).unwrap();
    assert_eq!(get_order(&vs), vec![0x0001, 0x0000, 0x0002]);
}

#[test]
fn snapshot_none_when_no_prior_boot_order_and_restore_deletes() {
    let mut vs = MockVarStore::new(); // no BootOrder at all
    let plan = plan_boot_order(&vs, &[0x0000]);
    assert_eq!(plan.snapshot.boot_order, None);
    apply(&mut vs, &plan).unwrap();
    assert_eq!(get_order(&vs), vec![0x0000]);
    restore(&mut vs, &plan.snapshot).unwrap(); // should delete it again
    assert!(vs.get(VarNamespace::Global, VAR_BOOT_ORDER).is_err());
}

#[test]
fn desired_order_puts_option_first_when_no_order_exists() {
    let vs = MockVarStore::new();
    assert_eq!(desired_with_myboot_first(&vs, 0x0003), vec![0x0003]);
}

const SAMPLE: &str = r#"
    default = "windows"
    timeout = 5
    policy  = "last-good-then-default"

    [transaction]
    confirm   = true
    max_tries = 2

    [[entry]]
    id     = "windows"
    method = "efi-chainload"
    loader = "\\EFI\\Microsoft\\Boot\\bootmgfw.efi"

    [recovery]
    rollback = "last-good"
"#;

#[test]
fn parses_and_validates_full_config() {
    let c = Config::parse(SAMPLE).unwrap();
    assert_eq!(c.default, "windows");
    assert_eq!(c.timeout_secs, 5);
    assert_eq!(c.policy, PolicyKind::LastGoodThenDefault);
    assert!(c.confirm);
    assert_eq!(c.max_tries, 2);
    assert_eq!(c.rollback, RollbackKind::LastGood);
    assert_eq!(c.entries.len(), 1);
    assert_eq!(c.entries[0].loader.as_deref(), Some("\\EFI\\Microsoft\\Boot\\bootmgfw.efi"));
}

#[test]
fn dynamic_default_is_allowed_without_declared_entry() {
    let c = Config::parse("default = \"nixos.current\"\n").unwrap();
    assert_eq!(c.default, "nixos.current");
}

#[test]
fn rejects_missing_default_bad_values_and_duplicates() {
    assert_eq!(Config::parse("timeout = 5\n").unwrap_err(), ConfigError::Missing("default"));
    assert_eq!(Config::parse("default=\"x\"\ntimeout = -1\n").unwrap_err(), ConfigError::Invalid("timeout"));
    let dup = "default=\"a\"\n[[entry]]\nid=\"a\"\n[[entry]]\nid=\"a\"\n";
    assert_eq!(Config::parse(dup).unwrap_err(), ConfigError::DuplicateEntry("a".into()));
    // default referring to an undeclared, non-dynamic id
    assert_eq!(Config::parse("default=\"ghost\"\n").unwrap_err(), ConfigError::UnknownDefault("ghost".into()));
}

#[test]
fn max_tries_zero_is_rejected() {
    let c = "default=\"a\"\n[[entry]]\nid=\"a\"\n[transaction]\nmax_tries = 0\n";
    assert_eq!(Config::parse(c).unwrap_err(), ConfigError::Invalid("max_tries"));
}

#[test]
fn defaults_apply_when_sections_are_absent() {
    let c = Config::parse("default = \"nixos.current\"\n").unwrap();
    assert_eq!(c.timeout_secs, 5);
    assert_eq!(c.policy, PolicyKind::LastGoodThenDefault);
    assert!(c.confirm);
    assert_eq!(c.max_tries, 2);
    assert_eq!(c.rollback, RollbackKind::LastGood);
    assert!(c.entries.is_empty());
}

#[test]
fn parses_sections_pairs_and_arrays() {
    let doc = parse(r#"
        # top-level config
        default = "nixos.current"
        timeout = 5

        [transaction]
        confirm = true
        max_tries = 2

        [[entry]]
        id = "windows"
        loader = "\\EFI\\Microsoft\\Boot\\bootmgfw.efi"

        [[entry]]
        id = "nixos"
    "#).unwrap();

    assert_eq!(doc.root_get("default").unwrap().as_str().unwrap(), "nixos.current");
    assert_eq!(doc.root_get("timeout").unwrap().as_int().unwrap(), 5);
    let tx = doc.tables_named("transaction")[0];
    assert_eq!(tx.get("confirm").unwrap().as_bool().unwrap(), true);
    let entries = doc.tables_named("entry");
    assert_eq!(entries.len(), 2);
    assert_eq!(entries[0].get("loader").unwrap().as_str().unwrap(),
               "\\EFI\\Microsoft\\Boot\\bootmgfw.efi");
}

#[test]
fn comments_and_quotes_coexist() {
    let doc = parse("name = \"a # b\"   # trailing comment\n").unwrap();
    assert_eq!(doc.root_get("name").unwrap().as_str().unwrap(), "a # b");
}

#[test]
fn malformed_lines_error_not_panic() {
    assert!(parse("[unterminated\n").is_err());
    assert!(parse("no_equals_here\n").is_err());
    assert!(parse("k = \n").is_err());
    // arbitrary bytes must never panic
    for len in 0..80usize {
        let s: String = (0..len).map(|x| ((x * 7) % 128) as u8 as char).collect();
        let _ = parse(&s);
    }
}

#[test]
fn parse_error_reports_the_line() {
    let e = parse("a = 1\nb\n").unwrap_err();
    assert_eq!(e.line, 2);
}

#[test]
fn the_snapshot_is_the_order_read_and_a_noop_apply_touches_nothing() {
    let mut vs = MockVarStore::new();
    set_order(&mut vs, &[0x0002, 0x0001]);
    let plan = plan_boot_order(&vs, &[0x0002, 0x0001]);
    assert_eq!(plan.snapshot.boot_order, Some(vec![0x0002, 0x0001]));
    assert!(plan.steps.is_empty());
    assert!(apply(&mut vs, &plan).is_ok());
    assert_eq!(get_order(&vs), vec![0x0002, 0x0001]);
}

#[test]
fn a_plan_is_made_from_what_the_read_answered() {
    let read: Result<Vec<u8>, IoError> = Ok(encode_boot_order(&[0x0001, 0x0000]));
    let plan = plan_from_read(&read, &[0x0000, 0x0001]);
    assert_eq!(plan.snapshot.boot_order, Some(vec![0x0001, 0x0000]));
    assert_eq!(plan.steps.len(), 1);
    let failed: Result<Vec<u8>, IoError> = Err(IoError::DeviceError);
    let plan = plan_from_read(&failed, &[0x0000]);
    assert_eq!(plan.snapshot.boot_order, None);
    assert_eq!(plan.steps.len(), 1);
    assert!(plan_from_read(&failed, &[]).is_noop());
    assert_eq!(desired_from_read(&read, 0x0000), vec![0x0000, 0x0001]);
    assert_eq!(desired_from_read(&failed, 0x0003), vec![0x0003]);
}
