use easy_wal::segment::{encode_record, segment_file_name, HEADER_SIZE, MAGIC};
use easy_wal::{Error, LogSegment};

#[test]
fn test_parse_base_offset() {
    assert_eq!(LogSegment::parse_base_offset("00000000000000000000.log").unwrap(), 0);
    assert_eq!(LogSegment::parse_base_offset("00000000000000001024.log").unwrap(), 1024);
    assert_eq!(LogSegment::parse_base_offset("00000000000000002048.log").unwrap(), 2048);
}

#[test]
fn parse_base_offset_refusals() {
    match LogSegment::parse_base_offset("00000000000000000000.txt") {
        Err(Error::Corruption { offset, reason }) => {
            assert_eq!(offset, 0);
            assert_eq!(reason, "Invalid file extension");
        }
        _ => panic!("expected a corruption error"),
    }
    match LogSegment::parse_base_offset("abc.log") {
        Err(Error::Corruption { reason, .. }) => assert_eq!(reason, "Invalid base offset format: abc"),
        _ => panic!("expected a corruption error"),
    }
    assert!(LogSegment::parse_base_offset("99999999999999999999.log").is_err());
    assert_eq!(LogSegment::parse_base_offset("+7.log").unwrap(), 7);
}

#[test]
fn segment_file_names_round_trip() {
    for base in [0u64, 1, 1024, u64::MAX] {
        let name = segment_file_name(base);
        assert_eq!(name.len(), 24);
        assert_eq!(LogSegment::parse_base_offset(&name).unwrap(), base);
    }
    assert_eq!(segment_file_name(100), "00000000000000000100.log");
}

#[test]
fn encoded_record_layout() {
    let rec = encode_record(b"hello");
    assert_eq!(rec.len(), HEADER_SIZE + 5);
    assert_eq!(&rec[0..4], &MAGIC.to_be_bytes());
    assert_eq!(&rec[4..8], &5u32.to_be_bytes());
    assert_eq!(&rec[8..12], &easy_wal::segment::crc32(b"hello").to_be_bytes());
    assert_eq!(&rec[12..], b"hello");
}

#[test]
fn segment_append_and_locate() {
    let mut seg = LogSegment::create("wal/00000000000000000100.log".to_string(), 100);
    assert_eq!(seg.base_offset(), 100);
    assert_eq!(seg.size(), 0);
    let first = seg.append(b"hello");
    assert_eq!(first, 100);
    let second = seg.append(b"world!");
    assert_eq!(second, 117);
    assert_eq!(seg.size(), 35);
    assert_eq!(seg.locate(117).unwrap(), 17);
    match seg.locate(99) {
        Err(Error::Corruption { offset, reason }) => {
            assert_eq!(offset, 99);
            assert_eq!(reason, "Offset is before base offset");
        }
        _ => panic!("expected a corruption error"),
    }
    match seg.locate(135) {
        Err(Error::Corruption { reason, .. }) => assert_eq!(reason, "Offset 135 is beyond segment size 35"),
        _ => panic!("expected a corruption error"),
    }
}

#[test]
fn segment_open_reads_base_from_name() {
    let seg = LogSegment::open("d/00000000000000000042.log".to_string(), "00000000000000000042.log", 10).unwrap();
    assert_eq!(seg.base_offset(), 42);
    assert_eq!(seg.size(), 10);
    assert_eq!(seg.path(), "d/00000000000000000042.log");
    assert!(LogSegment::open("d/x".to_string(), "x", 0).is_err());
}

#[test]
fn header_parsing_and_data_check() {
    let rec = encode_record(b"abc");
    let header = easy_wal::segment::parse_header(&rec[0..12], 7).unwrap();
    assert_eq!(header.length, 3);
    let data = easy_wal::segment::check_data(rec[12..].to_vec(), header, 7).unwrap();
    assert_eq!(data, b"abc");
    let mut bad = rec.clone();
    bad[0] = 0;
    match easy_wal::segment::parse_header(&bad[0..12], 7) {
        Err(Error::Corruption { offset, reason }) => {
            assert_eq!(offset, 7);
            assert!(reason.starts_with("Invalid magic number: expected 1280264019, got "));
        }
        _ => panic!("expected a corruption error"),
    }
    match easy_wal::segment::check_data(b"abd".to_vec(), header, 7) {
        Err(Error::Corruption { reason, .. }) => assert!(reason.starts_with("CRC mismatch: expected ")),
        _ => panic!("expected a corruption error"),
    }
}
