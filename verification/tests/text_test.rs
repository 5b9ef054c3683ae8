use easy_wal::decimal::{decimal_string, fixed_width_decimal, hex8, parse_u64};
use easy_wal::paths::{ends_with, join, starts_with};

#[test]
fn decimal_rendering_and_parsing() {
    assert_eq!(decimal_string(0), "0");
    assert_eq!(decimal_string(1024), "1024");
    assert_eq!(decimal_string(u64::MAX), "18446744073709551615");
    assert_eq!(fixed_width_decimal(42, 5), "00042");
    assert_eq!(parse_u64("18446744073709551615"), Some(u64::MAX));
    assert_eq!(parse_u64("18446744073709551616"), None);
    assert_eq!(parse_u64("+5"), Some(5));
    assert_eq!(parse_u64("-5"), None);
    assert_eq!(parse_u64(""), None);
    assert_eq!(parse_u64("1a"), None);
    for n in [0u64, 7, 10, 99, 100, 123456789] {
        assert_eq!(parse_u64(&decimal_string(n)), Some(n));
    }
}

#[test]
fn hex_rendering() {
    assert_eq!(hex8(0), "00000000");
    assert_eq!(hex8(0x3610A686), "3610a686");
    assert_eq!(hex8(u32::MAX), "ffffffff");
}

#[test]
fn path_joining_and_affixes() {
    assert_eq!(join("", "a.log"), "a.log");
    assert_eq!(join("dir", "a.log"), "dir/a.log");
    assert_eq!(join("dir/", "a.log"), "dir/a.log");
    assert!(starts_with("segment1.wal", "segment"));
    assert!(!starts_with("seg", "segment"));
    assert!(ends_with("segment1.wal", ".wal"));
    assert!(!ends_with("segment1.wa", ".wal"));
}
