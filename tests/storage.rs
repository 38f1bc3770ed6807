use ark_storage::envelope::{accept_structured, detect_format, read_legacy, StorageFormat};
use ark_storage::error::ErrorKind;
use ark_storage::storage::{FileStorage, STORAGE_VERSION};
use ark_storage::sync::SyncStatus;

fn s(text: &str) -> String {
    text.to_string()
}

#[test]
fn test_monoid_combine() {
    let mut file_storage_1: FileStorage<i32> = FileStorage::new(s("TestStorage1"), s("teststorage1.txt"), 10);
    let mut file_storage_2: FileStorage<i32> = FileStorage::new(s("TestStorage2"), s("teststorage2.txt"), 10);

    file_storage_1.set(s("key1"), 2, 11);
    file_storage_1.set(s("key2"), 6, 12);

    file_storage_2.set(s("key1"), 3, 11);
    file_storage_2.set(s("key3"), 9, 12);

    file_storage_1.merge_from(&file_storage_2, 13);
    assert_eq!(file_storage_1.get(&s("key1")), Some(&3));
    assert_eq!(file_storage_1.get(&s("key2")), Some(&6));
    assert_eq!(file_storage_1.get(&s("key3")), Some(&9));
}

#[test]
fn set_and_remove_in_memory() {
    let mut st: FileStorage<String> = FileStorage::new(s("TestStorage"), s("test_storage.txt"), 1);
    st.set(s("key1"), s("value1"), 2);
    st.set(s("key2"), s("value2"), 3);
    assert!(st.remove(&s("key1"), 4).is_ok());
    assert_eq!(st.len(), 1);
    assert_eq!(st.get(&s("key2")).map(|v| v.as_str()), Some("value2"));
    assert_eq!(st.get(&s("key1")), None);
    assert_eq!(st.modified(), 4);
}

#[test]
fn set_twice_keeps_last_value() {
    let mut st: FileStorage<String> = FileStorage::new(s("TestStorage"), s("test_storage.txt"), 1);
    st.set(s("key1"), s("value1"), 2);
    st.set(s("key1"), s("value2"), 3);
    assert_eq!(st.len(), 1);
    assert_eq!(st.get(&s("key1")).map(|v| v.as_str()), Some("value2"));
}

#[test]
fn remove_missing_key_fails() {
    let mut st: FileStorage<String> = FileStorage::new(s("Labelled"), s("x.txt"), 1);
    st.set(s("key1"), s("value1"), 2);
    let err = st.remove(&s("nope"), 5).unwrap_err();
    assert_eq!(err.kind, ErrorKind::KeyNotFound);
    assert_eq!(err.label, "Labelled");
    assert_eq!(st.len(), 1);
    assert_eq!(st.modified(), 2);
}

#[test]
fn file_storage_test_file_storage_write_read() {
    let mut file_storage: FileStorage<String> = FileStorage::new(s("TestStorage"), s("test_storage.txt"), 1);
    file_storage.set(s("key1"), s("value1"), 2);
    file_storage.set(s("key2"), s("value2"), 3);
    assert!(file_storage.remove(&s("key1"), 4).is_ok());
    file_storage.record_flush(5).expect("Failed to write data to disk");
    let written: Vec<(String, String)> = file_storage.as_ref().clone();
    let data = accept_structured::<String>(&s("TestStorage"), STORAGE_VERSION, written).expect("Failed to read data from disk");
    file_storage.replace_data(data, 5);
    assert_eq!(file_storage.len(), 1);
    assert_eq!(file_storage.get(&s("key2")).map(|v| v.as_str()), Some("value2"));
}

#[test]
fn test_file_storage_is_storage_updated() {
    let mut file_storage: FileStorage<String> = FileStorage::new(s("TestStorage"), s("teststorage.txt"), 10);
    assert!(file_storage.record_flush(11).is_ok());
    let mut disk_time: u128 = 11;
    assert_eq!(file_storage.needs_syncing(disk_time), SyncStatus::NoSync);
    file_storage.set(s("key1"), s("value1"), 20);
    assert_eq!(file_storage.needs_syncing(disk_time), SyncStatus::DownSync);
    assert!(file_storage.record_flush(21).is_ok());
    disk_time = 21;
    assert_eq!(file_storage.needs_syncing(disk_time), SyncStatus::NoSync);

    let mut mirror_storage: FileStorage<String> = FileStorage::new(s("MirrorTestStorage"), s("teststorage.txt"), 30);
    let loaded = accept_structured::<String>(&s("MirrorTestStorage"), STORAGE_VERSION, file_storage.as_ref().clone()).unwrap();
    mirror_storage.replace_data(loaded, disk_time);
    assert_eq!(mirror_storage.needs_syncing(disk_time), SyncStatus::NoSync);

    mirror_storage.set(s("key1"), s("value3"), 31);
    assert_eq!(mirror_storage.needs_syncing(disk_time), SyncStatus::DownSync);
    assert!(mirror_storage.record_flush(32).is_ok());
    disk_time = 32;
    assert_eq!(mirror_storage.needs_syncing(disk_time), SyncStatus::NoSync);

    assert_eq!(file_storage.needs_syncing(disk_time), SyncStatus::UpSync);
    let reloaded = accept_structured::<String>(&s("TestStorage"), STORAGE_VERSION, mirror_storage.as_ref().clone()).unwrap();
    file_storage.replace_data(reloaded, disk_time);
    assert_eq!(file_storage.needs_syncing(disk_time), SyncStatus::NoSync);
    assert_eq!(mirror_storage.needs_syncing(disk_time), SyncStatus::NoSync);
    assert_eq!(file_storage.get(&s("key1")).map(|v| v.as_str()), Some("value3"));
}

#[test]
fn status_transitions() {
    let mut st: FileStorage<String> = FileStorage::new(s("TestStorage"), s("t.txt"), 100);
    assert!(st.record_flush(200).is_ok());
    assert_eq!(st.needs_syncing(200), SyncStatus::NoSync);
    assert_eq!(st.needs_syncing(250), SyncStatus::UpSync);
    st.set(s("key1"), s("value1"), 300);
    assert_eq!(st.needs_syncing(200), SyncStatus::DownSync);
    assert_eq!(st.needs_syncing(250), SyncStatus::FullSync);
    assert!(st.record_flush(400).is_ok());
    assert_eq!(st.needs_syncing(400), SyncStatus::NoSync);
    assert_eq!(st.modified(), 400);
    assert_eq!(st.flushed(), 400);
}

#[test]
fn load_returns_status_to_no_sync() {
    let mut st: FileStorage<String> = FileStorage::new(s("TestStorage"), s("t.txt"), 100);
    st.set(s("key1"), s("value1"), 150);
    assert_eq!(st.needs_syncing(180), SyncStatus::FullSync);
    let data = read_legacy::<String>(&s("TestStorage"), "version 2\nkey2:value2\n").unwrap();
    st.replace_data(data, 180);
    assert_eq!(st.needs_syncing(180), SyncStatus::NoSync);
    assert_eq!(st.get(&s("key1")), None);
    assert_eq!(st.get(&s("key2")).map(|v| v.as_str()), Some("value2"));
}

#[test]
fn flush_fails_when_timestamp_does_not_move() {
    let mut st: FileStorage<String> = FileStorage::new(s("Clocked"), s("t.txt"), 100);
    st.set(s("key1"), s("value1"), 150);
    let err = st.record_flush(100).unwrap_err();
    assert_eq!(err.kind, ErrorKind::TimestampNotUpdated);
    assert_eq!(err.label, "Clocked");
    assert_eq!(st.flushed(), 100);
    assert_eq!(st.needs_syncing(100), SyncStatus::DownSync);
}

#[test]
fn merge_is_commutative_for_max() {
    let mut a: FileStorage<i32> = FileStorage::new(s("A"), s("a.txt"), 1);
    let mut b: FileStorage<i32> = FileStorage::new(s("B"), s("b.txt"), 1);
    a.set(s("x"), 1, 2);
    a.set(s("y"), 7, 2);
    b.set(s("x"), 5, 2);
    b.set(s("z"), -4, 2);
    let mut ab: FileStorage<i32> = FileStorage::new(s("AB"), s("ab.txt"), 1);
    ab.merge_from(&a, 3);
    ab.merge_from(&b, 3);
    let mut ba: FileStorage<i32> = FileStorage::new(s("BA"), s("ba.txt"), 1);
    ba.merge_from(&b, 3);
    ba.merge_from(&a, 3);
    for k in ["x", "y", "z"] {
        assert_eq!(ab.get(&s(k)), ba.get(&s(k)));
    }
    assert_eq!(ab.get(&s("x")), Some(&5));
    assert_eq!(ab.len(), 3);
    assert_eq!(ba.len(), 3);
}

#[test]
fn merge_twice_equals_once() {
    let mut a: FileStorage<i32> = FileStorage::new(s("A"), s("a.txt"), 1);
    let mut b: FileStorage<i32> = FileStorage::new(s("B"), s("b.txt"), 1);
    a.set(s("x"), 9, 2);
    a.set(s("y"), 1, 2);
    b.set(s("x"), 4, 2);
    b.set(s("y"), 8, 2);
    b.set(s("w"), 0, 2);
    a.merge_from(&b, 3);
    let once: Vec<(String, Option<i32>)> = ["w", "x", "y"].iter().map(|k| (s(k), a.get(&s(k)).copied())).collect();
    a.merge_from(&b, 4);
    let twice: Vec<(String, Option<i32>)> = ["w", "x", "y"].iter().map(|k| (s(k), a.get(&s(k)).copied())).collect();
    assert_eq!(once, twice);
    assert_eq!(a.get(&s("x")), Some(&9));
    assert_eq!(a.get(&s("y")), Some(&8));
    assert_eq!(a.get(&s("w")), Some(&0));
    assert_eq!(a.modified(), 4);
}

#[test]
fn detects_formats() {
    assert_eq!(detect_format("version 2\nk:v\n"), StorageFormat::Legacy);
    assert_eq!(detect_format("{\"version\": 3, \"entries\": {}}"), StorageFormat::Structured);
    assert_eq!(detect_format(""), StorageFormat::Structured);
}

#[test]
fn reads_legacy_text() {
    let d = read_legacy::<String>(&s("L"), "version 2\nkey1:value1\n\nkey2:value2:more\nkey1:again\n").unwrap();
    assert_eq!(d.version, 2);
    let mut e = d.entries.clone();
    e.sort();
    assert_eq!(e, vec![(s("key1"), s("again")), (s("key2"), s("value2:more"))]);
}

#[test]
fn reads_legacy_integers() {
    let d = read_legacy::<i32>(&s("L"), "version 2\na:5\nb:-12").unwrap();
    let mut e = d.entries.clone();
    e.sort();
    assert_eq!(e, vec![(s("a"), 5), (s("b"), -12)]);
    let err = read_legacy::<i32>(&s("L"), "version 2\na:five\n").unwrap_err();
    assert_eq!(err.kind, ErrorKind::MalformedLegacy);
}

#[test]
fn legacy_header_errors() {
    let err = read_legacy::<String>(&s("L"), "version 1\nk:v\n").unwrap_err();
    assert_eq!(err.kind, ErrorKind::VersionMismatch { expected: 2, found: 1 });
    assert_eq!(err.label, "L");
    let err = read_legacy::<String>(&s("L"), "").unwrap_err();
    assert_eq!(err.kind, ErrorKind::MissingHeader);
    let err = read_legacy::<String>(&s("L"), "version x\nk:v\n").unwrap_err();
    assert_eq!(err.kind, ErrorKind::MissingHeader);
    let err = read_legacy::<String>(&s("L"), "version 2\nno separator here\n").unwrap_err();
    assert_eq!(err.kind, ErrorKind::MalformedLegacy);
}

#[test]
fn structured_version_gate() {
    let err = accept_structured::<String>(&s("S"), 4, vec![(s("k"), s("v"))]).unwrap_err();
    assert_eq!(err.kind, ErrorKind::VersionMismatch { expected: STORAGE_VERSION, found: 4 });
    assert_eq!(err.label, "S");
    let err = accept_structured::<String>(&s("S"), 2, vec![]).unwrap_err();
    assert_eq!(err.kind, ErrorKind::VersionMismatch { expected: 3, found: 2 });
    let d = accept_structured::<String>(&s("S"), 3, vec![(s("k"), s("v")), (s("k"), s("w"))]).unwrap();
    assert_eq!(d.version, 3);
    assert_eq!(d.entries, vec![(s("k"), s("w"))]);
}

#[test]
fn legacy_load_then_flush_uses_current_version() {
    let mut st: FileStorage<String> = FileStorage::new(s("M"), s("m.txt"), 1);
    let data = read_legacy::<String>(&s("M"), "version 2\nk:v\n").unwrap();
    assert_eq!(data.version, 2);
    st.replace_data(data, 5);
    assert!(st.record_flush(6).is_ok());
    let written: Vec<(String, String)> = st.as_ref().clone();
    let back = accept_structured::<String>(&s("M"), STORAGE_VERSION, written).unwrap();
    assert_eq!(back.entries, vec![(s("k"), s("v"))]);
}

#[test]
fn round_trip_through_envelope() {
    let mut st: FileStorage<String> = FileStorage::new(s("R"), s("r.txt"), 1);
    st.set(s("b"), s("2"), 2);
    st.set(s("a"), s("1"), 3);
    st.set(s("c"), s("3"), 4);
    let written: Vec<(String, String)> = st.as_ref().clone();
    let back = accept_structured::<String>(&s("R"), STORAGE_VERSION, written).unwrap();
    let mut fresh: FileStorage<String> = FileStorage::new(s("R2"), s("r.txt"), 1);
    fresh.replace_data(back, 9);
    assert_eq!(fresh.len(), 3);
    for k in ["a", "b", "c"] {
        assert_eq!(fresh.get(&s(k)), st.get(&s(k)));
    }
}

#[test]
fn legacy_integer_edges() {
    let d = read_legacy::<i32>(&s("L"), "version 2\np:+7\nm:-2147483648\nz:007\n").unwrap();
    let mut e = d.entries.clone();
    e.sort();
    assert_eq!(e, vec![(s("m"), i32::MIN), (s("p"), 7), (s("z"), 7)]);
    let err = read_legacy::<i32>(&s("L"), "version 2\nbig:2147483648\n").unwrap_err();
    assert_eq!(err.kind, ErrorKind::MalformedLegacy);
    let err = read_legacy::<i32>(&s("L"), "version 2\nsign:-\n").unwrap_err();
    assert_eq!(err.kind, ErrorKind::MalformedLegacy);
    let err = read_legacy::<i32>(&s("L"), "version +2x\n").unwrap_err();
    assert_eq!(err.kind, ErrorKind::MissingHeader);
}
