use ark_storage::id::{Fingerprinter, ResourceId};

#[test]
fn fingerprint_of_check_string() {
    let id = ResourceId::compute_bytes(b"123456789");
    assert_eq!(id.crc32, 0xCBF43926);
    assert_eq!(id.data_size, 9);
}

#[test]
fn fingerprint_of_empty_input() {
    let id = ResourceId::compute_bytes(&[]);
    assert_eq!(id, ResourceId { data_size: 0, crc32: 0 });
}

#[test]
fn fingerprint_is_stable_and_sized() {
    let bytes: Vec<u8> = (0..1_200_000u32).map(|i| (i % 251) as u8).collect();
    let a = ResourceId::compute_bytes(&bytes);
    let b = ResourceId::compute_bytes(&bytes.clone());
    assert_eq!(a, b);
    assert_eq!(a.data_size, 1_200_000);
    assert_eq!(a.crc32, crc32fast::hash(&bytes));
}

#[test]
fn fingerprint_ignores_chunking() {
    let bytes: Vec<u8> = (0..10_000u32).map(|i| (i * 7 % 256) as u8).collect();
    let mut fp = Fingerprinter::new();
    for chunk in bytes.chunks(333) {
        fp.feed(chunk);
    }
    assert_eq!(fp.bytes_read(), 10_000);
    assert_eq!(fp.finish(10_000), ResourceId::compute_bytes(&bytes));
}

#[test]
fn different_content_gives_different_checksum() {
    let a = ResourceId::compute_bytes(b"abc");
    let b = ResourceId::compute_bytes(b"abd");
    assert_eq!(a.data_size, b.data_size);
    assert_ne!(a.crc32, b.crc32);
}
