use myboot::graph::{BootResult, EntryId, EntryRole, OsKind};
use myboot::persistence::loadopt::{decode_boot_order, encode_boot_order, LoadOption, LoadOptError};
use myboot::persistence::log::{append_record, parse, LogRecord, LOG_PATH};
use myboot::persistence::nvram::{id_from_read, read_id, read_last_good, StateStore, VAR_DEFAULT};
use myboot::ports::{FileStore, IoError, VarNamespace, VarStore};
use myboot::ports::mock::{MockFileStore, MockVarStore};

#[test]
fn load_option_roundtrips() {
    let lo = LoadOption::new("Windows Boot Manager", vec![1, 2, 3, 4]);
    let bytes = lo.encode().unwrap();
    let back = LoadOption::decode(&bytes).unwrap();
    assert_eq!(back, lo);
    assert!(back.is_active());
}

#[test]
fn load_option_decode_is_total_on_garbage() {
    for len in 0..40usize {
        let junk: Vec<u8> = (0..len).map(|x| x as u8).collect();
        let _ = LoadOption::decode(&junk); // must never panic
    }
    assert!(LoadOption::decode(&[]).is_err());
}

#[test]
fn boot_order_roundtrips_and_tolerates_odd_tail() {
    let order = [0x0000u16, 0x0001, 0x0007];
    let enc = encode_boot_order(&order);
    assert_eq!(decode_boot_order(&enc), order.to_vec());
    let mut odd = enc.clone(); odd.push(0xAB); // stray byte
    assert_eq!(decode_boot_order(&odd), order.to_vec());
}

#[test]
fn load_option_layout_is_exact() {
    let lo = LoadOption::new("A", vec![7]);
    let bytes = lo.encode().unwrap();
    // attributes (active), path-list length 1, "A" in UTF-16 + NUL, then the path list
    assert_eq!(bytes, vec![1, 0, 0, 0, 1, 0, b'A', 0, 0, 0, 7]);
    assert_eq!(encode_boot_order(&[0x1234]), vec![0x34, 0x12]);
}

#[test]
fn load_option_decode_errors() {
    assert_eq!(LoadOption::decode(&[1, 0, 0]), Err(LoadOptError::Short));
    // description never terminated
    assert_eq!(LoadOption::decode(&[1, 0, 0, 0, 0, 0, b'A', 0]), Err(LoadOptError::BadDescription));
}

#[test]
fn append_then_parse_roundtrips_records() {
    let mut fs = MockFileStore::new();
    let id = EntryId::derive(OsKind::NixOs, &EntryRole::Generation(128), None);
    append_record(&mut fs, &LogRecord { seq: 1, entry: id.clone(), phase: "staged", result: None }).unwrap();
    append_record(&mut fs, &LogRecord { seq: 2, entry: id.clone(), phase: "confirmed", result: Some(BootResult::Confirmed) }).unwrap();
    let raw = fs.read(LOG_PATH).unwrap();
    let recs = parse(&raw);
    assert_eq!(recs.len(), 2);
    assert_eq!(recs[0].0, 1);
    assert_eq!(recs[1].3, "confirmed");
}

#[test]
fn parse_skips_malformed_lines() {
    let recs = parse(b"garbage line without tabs\n5\tnixos:gen1\tstaged\t-\n");
    assert_eq!(recs.len(), 1);
    assert_eq!(recs[0].0, 5);
}

#[test]
fn log_record_renders_one_tab_separated_line() {
    let id = EntryId::from_raw("nixos:gen128");
    let line = LogRecord { seq: 7, entry: id, phase: "failed", result: Some(BootResult::Failed) }.render();
    assert_eq!(line, "7\tnixos:gen128\tfailed\tfailed\n");
}

#[test]
fn default_and_last_good_persist() {
    let mut vs = MockVarStore::new();
    let id = EntryId::derive(OsKind::NixOs, &EntryRole::Generation(128), None);
    {
        let mut st = StateStore::new(&mut vs);
        assert_eq!(st.default_entry().unwrap(), None);
        st.set_default(&id).unwrap();
        st.set_last_good(&id).unwrap();
    }
    let st = StateStore::new(&mut vs);
    assert_eq!(st.default_entry().unwrap().unwrap(), id);
    assert_eq!(st.last_good().unwrap().unwrap(), id);
}

#[test]
fn one_shot_is_consumed_on_read() {
    let mut vs = MockVarStore::new();
    let id = EntryId::derive(OsKind::Windows, &EntryRole::Default, None);
    let mut st = StateStore::new(&mut vs);
    st.set_one_shot(&id).unwrap();
    assert_eq!(st.take_one_shot().unwrap().unwrap(), id);
    assert_eq!(st.take_one_shot().unwrap(), None, "one-shot must clear after use");
}

#[test]
fn last_good_reads_back_what_was_written() {
    let mut vs = MockVarStore::new();
    assert_eq!(read_last_good(&vs).unwrap(), None);
    let id = EntryId::from_raw("windows:default");
    StateStore::new(&mut vs).set_last_good(&id).unwrap();
    assert_eq!(read_last_good(&vs).unwrap().unwrap().as_str(), "windows:default");
}

#[test]
fn a_stored_id_that_is_not_utf8_reads_as_corrupt() {
    let mut vs = MockVarStore::new();
    vs.set(VarNamespace::Vendor, VAR_DEFAULT, &[0xFF, 0xFE]).unwrap();
    assert_eq!(read_id(&vs, VAR_DEFAULT), Err(IoError::Corrupt));
    let id = EntryId::from_raw("nixos:gen-3");
    StateStore::new(&mut vs).set_default(&id).unwrap();
    assert_eq!(read_id(&vs, VAR_DEFAULT).unwrap().unwrap().as_str(), "nixos:gen-3");
}

#[test]
fn a_store_error_other_than_not_found_is_passed_on() {
    assert_eq!(id_from_read(Err(IoError::DeviceError)), Err(IoError::DeviceError));
    assert_eq!(id_from_read(Err(IoError::NotFound)), Ok(None));
    assert_eq!(id_from_read(Ok(vec![0xFF])), Err(IoError::Corrupt));
    assert_eq!(id_from_read(Ok(b"linux:default".to_vec())).unwrap().unwrap().as_str(), "linux:default");
}

#[test]
fn values_persist_across_state_store_instances() {
    let mut vs = MockVarStore::new();
    let id = EntryId::derive(OsKind::NixOs, &EntryRole::Generation(128), None);
    assert_eq!(StateStore::new(&mut vs).default_entry(), Ok(None));
    {
        let mut st = StateStore::new(&mut vs);
        st.set_default(&id).unwrap();
        st.set_last_good(&id).unwrap();
    }
    let st = StateStore::new(&mut vs);
    assert_eq!(st.default_entry(), Ok(Some(id.clone())));
    assert_eq!(st.last_good(), Ok(Some(id)));
}
