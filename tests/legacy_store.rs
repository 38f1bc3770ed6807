use ark_storage::error::ErrorKind;
use ark_storage::legacy::FileStorage;

fn s(text: &str) -> String {
    text.to_string()
}

#[test]
fn renders_and_reads_back() {
    let st = FileStorage::new(s("TestStorage"), s("test_storage.txt"), 1);
    let entries = vec![(s("key1"), s("value1")), (s("key2"), s("value2"))];
    let text = st.render(&entries);
    assert_eq!(text, "version 2\nkey1:value1\nkey2:value2\n");
    let mut back: Vec<(String, String)> = st.read_content(&text).unwrap();
    back.sort();
    assert_eq!(back, entries);
}

#[test]
fn verify_version_cases() {
    let st = FileStorage::new(s("V"), s("v.txt"), 1);
    assert!(st.verify_version("version 2").is_ok());
    assert_eq!(st.verify_version("version 3").unwrap_err().kind, ErrorKind::VersionMismatch { expected: 2, found: 3 });
    assert_eq!(st.verify_version("v2").unwrap_err().kind, ErrorKind::MissingHeader);
}

#[test]
fn write_guard_and_reading_decision() {
    let mut st = FileStorage::new(s("W"), s("w.txt"), 10);
    assert!(!st.needs_reading(10));
    assert!(st.needs_reading(11));
    assert_eq!(st.record_write(10).unwrap_err().kind, ErrorKind::TimestampNotUpdated);
    assert!(st.record_write(20).is_ok());
    assert_eq!(st.timestamp(), 20);
    assert!(!st.needs_reading(15));
    assert_eq!(st.log_prefix(), "[file-storage] W");
}
