use easy_wal::segment;
use easy_wal::storage::checksum::{crc32, verify_crc32, Crc32};

#[test]
fn test_crc32() {
    let data = b"test data";
    let crc = segment::crc32(data);
    assert!(crc != 0);
}

#[test]
fn test_crc32_empty() {
    assert_eq!(crc32(b""), 0x00000000);
}

#[test]
fn test_crc32_hello() {
    assert_eq!(crc32(b"hello"), 0x3610A686);
}

#[test]
fn test_crc32_verify() {
    let data = b"test data";
    let checksum = crc32(data);
    assert!(verify_crc32(data, checksum));
    assert!(!verify_crc32(data, checksum + 1));
}

#[test]
fn test_crc32_struct() {
    let calculator = Crc32::new();
    let data = b"hello world";

    let checksum = calculator.checksum(data);
    assert!(calculator.verify(data, checksum));
}

#[test]
fn table_checksum_agrees_with_crc32fast() {
    let inputs: [&[u8]; 4] = [b"", b"hello", b"hello world", b"123456789"];
    for data in inputs {
        assert_eq!(crc32(data), segment::crc32(data));
    }
    assert_eq!(crc32(b"123456789"), 0xCBF43926);
    assert_eq!(segment::crc32(b"hello"), 0x3610A686);
    assert_eq!(Crc32::default().checksum(b"123456789"), 0xCBF43926);
}
