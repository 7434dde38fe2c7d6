use myboot::ports::{FileStore, IoError, VarNamespace, VarStore};
use myboot::ports::mock::{MockFileStore, MockVarStore};

#[test]
fn var_store_roundtrip_and_namespaces_are_isolated() {
    let mut vs = MockVarStore::new();
    vs.set(VarNamespace::Global, "BootOrder", &[0, 0, 1, 0]).unwrap();
    vs.set(VarNamespace::Vendor, "state", &[42]).unwrap();
    assert_eq!(vs.get(VarNamespace::Global, "BootOrder").unwrap(), [0u8, 0, 1, 0].to_vec());
    assert_eq!(vs.get(VarNamespace::Global, "state"), Err(IoError::NotFound));
    assert_eq!(vs.get(VarNamespace::Vendor, "state").unwrap(), [42u8].to_vec());
    vs.delete(VarNamespace::Vendor, "state").unwrap();
    vs.delete(VarNamespace::Vendor, "state").unwrap(); // idempotent
    assert_eq!(vs.get(VarNamespace::Vendor, "state"), Err(IoError::NotFound));
}

#[test]
fn file_store_lists_immediate_children() {
    let fs = MockFileStore::new()
        .with_file("\\loader\\entries\\a.conf", b"x")
        .with_file("\\loader\\entries\\b.conf", b"y")
        .with_file("\\loader\\entries\\sub\\c.conf", b"z");
    let mut names = fs.list_dir("\\loader\\entries").unwrap();
    names.sort();
    assert_eq!(names, vec!["a.conf".to_string(), "b.conf".to_string(), "sub".to_string()]);
    assert_eq!(fs.list_dir("\\nope"), Err(IoError::NotFound));
}

#[test]
fn file_store_append_creates_then_grows() {
    let mut fs = MockFileStore::new();
    assert!(!fs.path_exists("\\EFI\\MyBoot\\log"));
    fs.append("\\EFI\\MyBoot\\log", b"a").unwrap();
    fs.append("\\EFI\\MyBoot\\log", b"b").unwrap();
    assert_eq!(fs.read("\\EFI\\MyBoot\\log").unwrap(), b"ab".to_vec());
    assert!(fs.path_exists("\\EFI\\MyBoot\\log"));
}

#[test]
fn var_store_lists_each_name_once_and_overwrites() {
    let mut vs = MockVarStore::new();
    vs.set(VarNamespace::Global, "A", &[1]).unwrap();
    vs.set(VarNamespace::Global, "B", &[2]).unwrap();
    vs.set(VarNamespace::Global, "A", &[3]).unwrap();
    let mut names = vs.list(VarNamespace::Global).unwrap();
    names.sort();
    assert_eq!(names, vec!["A".to_string(), "B".to_string()]);
    assert_eq!(vs.get(VarNamespace::Global, "A").unwrap(), vec![3u8]);
    assert!(vs.list(VarNamespace::Vendor).unwrap().is_empty());
}

#[test]
fn file_store_write_replaces_and_reads_missing_as_not_found() {
    let mut fs = MockFileStore::new().with_file("\\f", b"old");
    fs.write("\\f", b"new").unwrap();
    assert_eq!(fs.read("\\f").unwrap(), b"new".to_vec());
    assert_eq!(fs.read("\\g"), Err(IoError::NotFound));
    assert_eq!(fs.volume_label(), None);
}
