use easy_wal::segment::encode_record;
use easy_wal::storage::log_segment::{check_record_header, LogSegment as StoreSegment, WritePosition, SEGMENT_HEADER_SIZE};
use easy_wal::storage::log_writer::LogWriter;
use easy_wal::storage::memory_storage::MemoryStorage;
use easy_wal::storage::Storage;
use easy_wal::Error;

fn segment_with_header() -> StoreSegment<MemoryStorage> {
    let mut storage = MemoryStorage::new();
    storage.append(&[0u8; 16]).unwrap();
    StoreSegment::new(storage, 1)
}

#[test]
fn append_then_read_next() {
    let mut seg = segment_with_header();
    assert_eq!(seg.write_position(), SEGMENT_HEADER_SIZE);
    let pos = seg.append(b"hello world").unwrap();
    assert_eq!(pos, WritePosition { segment_id: 1, offset: 28, length: 11 });
    assert_eq!(seg.write_position(), 39);
    let r = seg.read_next(16).unwrap();
    assert_eq!(r.data, b"hello world");
    assert_eq!(r.next_offset, 39);
    assert!(matches!(seg.read_next(39), Err(Error::Eof)));
    assert!(seg.is_valid_offset(16));
    assert!(!seg.is_valid_offset(39));
    assert!(!seg.is_valid_offset(15));
}

#[test]
fn append_batch_positions_and_read_batch() {
    let mut seg = segment_with_header();
    let data_list: Vec<&[u8]> = vec![b"a", b"bb", b"ccc"];
    let positions = seg.append_batch(&data_list).unwrap();
    assert_eq!(positions.len(), 3);
    assert_eq!(positions[0].offset, 28);
    assert_eq!(positions[1].offset, 28 + 13);
    assert_eq!(positions[2].offset, 28 + 13 + 14);
    assert_eq!(positions[2].length, 3);
    let batch = seg.read_batch(16, 10).unwrap();
    assert_eq!(batch.records, vec![b"a".to_vec(), b"bb".to_vec(), b"ccc".to_vec()]);
    assert_eq!(batch.next_offset, seg.write_position());
    let two = seg.read_batch(16, 2).unwrap();
    assert_eq!(two.records.len(), 2);
    let raw = seg.read_raw(16, 5).unwrap();
    assert_eq!(raw.end_offset, 21);
    assert_eq!(seg.size().unwrap(), 16 + 13 + 14 + 15);
}

#[test]
fn damaged_records_are_reported() {
    let mut storage = MemoryStorage::new();
    let mut rec = encode_record(b"data");
    rec[13] ^= 0xFF;
    storage.append(&rec).unwrap();
    storage.append(&[0u8; 12]).unwrap();
    let mut seg = StoreSegment::from_existing(storage, 2).unwrap();
    assert_eq!(seg.write_position(), 28);
    match seg.read_next(0) {
        Err(Error::Generic(m)) => assert!(m.starts_with("CRC32 mismatch: expected ")),
        _ => panic!("expected a checksum error"),
    }
    match seg.read_next(16) {
        Err(Error::Generic(m)) => assert_eq!(m, "Invalid record magic: 00000000"),
        _ => panic!("expected a magic error"),
    }
    assert!(seg.read_batch(0, 5).is_err());
}

#[test]
fn header_checks() {
    let mut header = encode_record(b"x")[..12].to_vec();
    assert_eq!(check_record_header(&header).unwrap().0, 1);
    assert!(matches!(check_record_header(&header[..11]), Err(Error::Eof)));
    header[4..8].copy_from_slice(&0u32.to_be_bytes());
    match check_record_header(&header) {
        Err(Error::Generic(m)) => assert_eq!(m, "Invalid record length: 0"),
        _ => panic!("expected a length error"),
    }
}

#[test]
fn writer_writes_records() {
    let mut storage = MemoryStorage::new();
    storage.append(&[0u8; 16]).unwrap();
    let mut writer = LogWriter::new(storage, 5);
    assert_eq!(writer.segment_id(), 5);
    let pos = writer.write(b"hello world").unwrap();
    assert_eq!(pos.offset, 28);
    assert_eq!(pos.length, 11);
    let data_list: Vec<&[u8]> = vec![b"a", b"bb", b"ccc"];
    let positions = writer.write_batch(&data_list).unwrap();
    assert_eq!(positions.iter().map(|p| p.length).collect::<Vec<_>>(), vec![1, 2, 3]);
    assert_eq!(writer.size().unwrap(), 16 + 23 + 13 + 14 + 15);
    writer.sync().unwrap();
    writer.close().unwrap();
}

#[test]
fn short_and_oversized_records_are_reported() {
    let mut storage = MemoryStorage::new();
    let rec = encode_record(&[7u8; 100]);
    storage.append(&rec[..22]).unwrap();
    let mut seg = StoreSegment::from_existing(storage, 3).unwrap();
    match seg.read_next(0) {
        Err(Error::Generic(m)) => assert_eq!(m, "Incomplete read: expected 100 bytes, got 10"),
        _ => panic!("expected an incomplete read"),
    }
    let mut header = encode_record(b"x")[..12].to_vec();
    header[4..8].copy_from_slice(&67108865u32.to_be_bytes());
    let mut storage = MemoryStorage::new();
    storage.append(&header).unwrap();
    let mut seg = StoreSegment::from_existing(storage, 4).unwrap();
    match seg.read_next(0) {
        Err(Error::Generic(m)) => assert_eq!(m, "Invalid record length: 67108865"),
        _ => panic!("expected a length error"),
    }
    assert!(!seg.is_valid_offset(12));
}

#[test]
fn batch_read_stops_at_a_damaged_record() {
    let mut storage = MemoryStorage::new();
    storage.append(&encode_record(b"first")).unwrap();
    let mut bad = encode_record(b"second");
    bad[12] ^= 0x01;
    storage.append(&bad).unwrap();
    let mut seg = StoreSegment::from_existing(storage, 5).unwrap();
    let one = seg.read_batch(0, 1).unwrap();
    assert_eq!(one.records, vec![b"first".to_vec()]);
    assert_eq!(one.next_offset, 17);
    match seg.read_batch(0, 5) {
        Err(Error::Generic(m)) => assert!(m.starts_with("CRC32 mismatch: expected ")),
        _ => panic!("expected a checksum error"),
    }
    let tail = seg.read_batch(17 + 18, 5).unwrap();
    assert!(tail.records.is_empty());
    assert_eq!(tail.next_offset, 35);
}
