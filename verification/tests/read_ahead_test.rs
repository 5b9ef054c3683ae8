use easy_wal::segment::encode_record;
use easy_wal::storage::log_reader::ReadPosition;
use easy_wal::wal::coordinators::{check_batch_sizes, check_record_size, ReadAheadBuffer, ReadCoordinator, MAX_RECORD_SIZE};
use easy_wal::Error;

#[test]
fn buffer_hands_out_whole_records() {
    let mut bytes = encode_record(b"one");
    bytes.extend(encode_record(b"three"));
    let mut buf = ReadAheadBuffer::new(64);
    assert!(!buf.has_data());
    assert_eq!(buf.fill(bytes), 0);
    assert!(buf.has_data());
    assert_eq!(buf.read().unwrap(), b"one");
    assert_eq!(buf.read().unwrap(), b"three");
    assert!(buf.read().is_none());
    assert!(!buf.has_data());
}

#[test]
fn unfinished_record_is_kept_for_the_next_fill() {
    let rec = encode_record(b"split record");
    let (head, tail) = rec.split_at(10);
    let mut buf = ReadAheadBuffer::new(64);
    buf.fill(head.to_vec());
    assert!(buf.read().is_none());
    assert!(!buf.has_data());
    assert_eq!(buf.fill(tail.to_vec()), 10);
    assert_eq!(buf.read().unwrap(), b"split record");
    buf.clear();
    assert_eq!(buf.len(), 0);
}

#[test]
fn coordinator_positions_stay_apart() {
    let mut rc = ReadCoordinator::new(ReadPosition { segment_id: 1, offset: 16 }).with_read_ahead(4096);
    assert_eq!(rc.read_ahead_size(), 4096);
    assert!(rc.read_from_buffer().is_none());
    let (at, len) = rc.fill_request().unwrap();
    assert_eq!(at, ReadPosition { segment_id: 1, offset: 16 });
    assert_eq!(len, 4096);
    let mut bytes = encode_record(b"a");
    bytes.extend(encode_record(b"bb"));
    let end = ReadPosition { segment_id: 1, offset: 16 + bytes.len() as u64 };
    assert_eq!(rc.fill_with(bytes, end).unwrap(), 0);
    assert_eq!(rc.read_ahead_position(), end);
    assert_eq!(rc.position().offset, 16);
    assert_eq!(rc.read_from_buffer().unwrap(), b"a");
    assert_eq!(rc.position().offset, 16 + 13);
    assert_eq!(rc.read_from_buffer().unwrap(), b"bb");
    assert_eq!(rc.position(), end);
    assert!(matches!(rc.fill_with(Vec::new(), end), Err(Error::Eof)));
    rc.seek(3, 100);
    assert_eq!(rc.position(), ReadPosition { segment_id: 3, offset: 100 });
    rc.seek_to_start();
    assert_eq!(rc.position(), ReadPosition { segment_id: 1, offset: 16 });
    assert_eq!(rc.buffered_len(), 0);
}

#[test]
fn record_size_limit() {
    assert!(check_record_size(MAX_RECORD_SIZE as usize).is_ok());
    match check_record_size(MAX_RECORD_SIZE as usize + 1) {
        Err(Error::Generic(m)) => assert_eq!(m, "Record too large: 67108865 > 67108864"),
        _ => panic!("expected an error"),
    }
    let small: &[u8] = b"ok";
    assert!(check_batch_sizes(&[small, small]).is_ok());
    let big = vec![0u8; MAX_RECORD_SIZE as usize + 1];
    match check_batch_sizes(&[small, big.as_slice(), small]) {
        Err(Error::Generic(m)) => assert_eq!(m, "Record too large: 67108865 > 67108864"),
        _ => panic!("expected an error"),
    }
}
