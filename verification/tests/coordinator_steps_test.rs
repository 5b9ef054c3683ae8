use easy_wal::segment::encode_record;
use easy_wal::storage::log_reader::ReadPosition;
use easy_wal::storage::log_segment::{batch_positions, encode_batch, WritePosition};
use easy_wal::storage::segment_manager::SegmentConfig;
use easy_wal::storage::{read_span, StorageStats};
use easy_wal::wal::coordinators::{ReadCoordinator, ReadStep, WriteCoordinator};
use easy_wal::wal::segment_coordinator::{RotationConfig, SegmentCoordinator};
use easy_wal::wal::sync_strategy::{SyncMode, SyncStrategy};
use easy_wal::Error;

fn write_coordinator(mode: SyncMode) -> WriteCoordinator {
    let segments = SegmentCoordinator::new(RotationConfig::new().with_max_size(30), SegmentConfig::new("d"), &[]);
    WriteCoordinator::new(segments, SyncStrategy::new(mode))
}

#[test]
fn write_steps_name_the_segment_rotate_and_sync() {
    let mut wc = write_coordinator(SyncMode::FsyncOnWrite);
    let abc: &[u8] = b"abc";
    let (id, path) = wc.begin_write(&[abc]).unwrap();
    assert_eq!((id, path.as_str()), (1, "d/segment1.wal"));
    let follow = wc.finish_write(1, 15, None, 0);
    assert!(follow.rotated.is_none());
    assert_eq!(follow.sync_bytes, Some(15));
    let now = std::time::Instant::now();
    let report = wc.finish_sync(Ok(()), 15, 3, now).unwrap();
    assert!(report.success);
    assert_eq!(report.duration_ms, 3);
    assert!(report.error.is_none());
    assert_eq!(wc.pending_sync_bytes(), 0);
    assert_eq!(wc.sync_strategy().stats().sync_count, 1);
    assert_eq!(wc.sync_strategy().stats().last_sync_at, Some(now));
    let follow = wc.finish_write(1, 20, None, 0);
    let (new_id, new_path) = follow.rotated.unwrap();
    assert_eq!((new_id, new_path.as_str()), (2, "d/segment2.wal"));
    assert_eq!(wc.segments().active_segment_size(), 0);
    assert_eq!(wc.segments().records_in_current_segment(), 0);
}

#[test]
fn write_steps_refuse_large_records_and_report_failed_syncs() {
    let mut wc = write_coordinator(SyncMode::NoSync);
    let big = vec![0u8; 67108865];
    let small: &[u8] = b"x";
    match wc.begin_write(&[small, big.as_slice()]) {
        Err(Error::Generic(m)) => assert_eq!(m, "Record too large: 67108865 > 67108864"),
        _ => panic!("expected an error"),
    }
    assert_eq!(wc.segments().active_segment_id(), 0);
    let follow = wc.finish_write(1, 13, None, 0);
    assert_eq!(follow.sync_bytes, None);
    match wc.finish_sync(Err(Error::Generic("disk full".to_string())), 13, 1, std::time::Instant::now()) {
        Err(Error::Sync(m)) => assert_eq!(m, "disk full"),
        _ => panic!("expected a sync error"),
    }
    assert_eq!(wc.pending_sync_bytes(), 13);
    assert_eq!(wc.sync_strategy().stats().sync_count, 0);
}

#[test]
fn read_steps_fill_then_hand_out_records() {
    let start = ReadPosition { segment_id: 1, offset: 16 };
    let mut rc = ReadCoordinator::new(start);
    match rc.read_step() {
        ReadStep::Fill(pos, n) => assert_eq!((pos, n), (start, 65536)),
        ReadStep::Record(_) => panic!("nothing is buffered yet"),
    }
    let mut bytes = encode_record(b"hi");
    bytes.extend(encode_record(b"yo"));
    let end = ReadPosition { segment_id: 1, offset: 16 + 28 };
    assert_eq!(rc.read_after_fill(bytes, end).unwrap(), b"hi".to_vec());
    assert_eq!(rc.position(), ReadPosition { segment_id: 1, offset: 30 });
    match rc.read_step() {
        ReadStep::Record(d) => assert_eq!(d, b"yo".to_vec()),
        ReadStep::Fill(..) => panic!("a record is buffered"),
    }
    match rc.read_step() {
        ReadStep::Fill(pos, _) => assert_eq!(pos, end),
        ReadStep::Record(_) => panic!("the buffer is empty"),
    }
    assert!(matches!(rc.read_after_fill(Vec::new(), end), Err(Error::Eof)));
    assert_eq!(rc.position(), ReadPosition { segment_id: 1, offset: 44 });
}

#[test]
fn batches_encode_and_place_their_records() {
    let a: &[u8] = b"a";
    let bb: &[u8] = b"bb";
    let bytes = encode_batch(&[a, bb]);
    let mut expected = encode_record(b"a");
    expected.extend(encode_record(b"bb"));
    assert_eq!(bytes, expected);
    let positions = batch_positions(7, 16, &[a, bb]);
    assert_eq!(
        positions,
        vec![
            WritePosition { segment_id: 7, offset: 28, length: 1 },
            WritePosition { segment_id: 7, offset: 41, length: 2 },
        ]
    );
}

#[test]
fn read_spans_and_counters() {
    assert_eq!(read_span(10, 2, 3), (2, 5));
    assert_eq!(read_span(10, 8, u64::MAX), (8, 10));
    let (s, e) = read_span(10, 12, 1);
    assert_eq!(s, e);
    let mut st = StorageStats::default();
    st.count_read(5);
    st.count_write(3, 40);
    assert_eq!(st, StorageStats { size: 40, bytes_written: 3, bytes_read: 5, write_ops: 1, read_ops: 1 });
}
