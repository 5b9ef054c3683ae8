use easy_wal::storage::log_reader::{LogReader, LogReaderConfig, ReadPosition};
use easy_wal::storage::log_segment::LogSegment as StoreSegment;
use easy_wal::storage::memory_storage::MemoryStorage;
use easy_wal::storage::segment_manager::{SegmentConfig, SegmentManager};
use easy_wal::storage::Storage;
use easy_wal::wal::recovery::{Checkpoint, CheckpointPosition, RecoveryManager};
use easy_wal::Error;

fn segment_with(records: &[&[u8]]) -> StoreSegment<MemoryStorage> {
    let mut storage = MemoryStorage::new();
    storage.append(&[0u8; 16]).unwrap();
    let mut seg = StoreSegment::new(storage, 1);
    seg.append_batch(records).unwrap();
    seg
}

#[test]
fn test_read_empty_segment() {
    let reader = LogReader::new(LogReaderConfig::default());
    let pos = reader.position();
    assert_eq!(pos.segment_id, 1);
    assert_eq!(pos.offset, 16);
}

#[test]
fn test_seek() {
    let mut reader = LogReader::new(LogReaderConfig::default());
    reader.seek(5, 100);
    let pos = reader.position();
    assert_eq!(pos.segment_id, 5);
    assert_eq!(pos.offset, 100);
}

#[test]
fn reader_walks_records_and_stops_at_the_end() {
    let mut seg = segment_with(&[b"first", b"second"]);
    let mut reader = LogReader::new(LogReaderConfig::default());
    assert_eq!(reader.read_next(&mut seg).unwrap(), b"first");
    assert_eq!(reader.position(), ReadPosition { segment_id: 1, offset: 16 + 17 });
    assert_eq!(reader.read_next(&mut seg).unwrap(), b"second");
    assert!(matches!(reader.read_next(&mut seg), Err(Error::Eof)));
    assert_eq!(reader.position().offset, 16 + 17 + 18);
    reader.seek_to_start();
    let all = reader.read_batch(&mut seg, 10).unwrap();
    assert_eq!(all, vec![b"first".to_vec(), b"second".to_vec()]);
    reader.seek_to_start();
    let raw = reader.read_raw(&mut seg, 4).unwrap();
    assert_eq!(raw.len(), 4);
    assert_eq!(reader.position().offset, 20);
    assert_eq!(reader.read_at(&mut seg, 16, 4).unwrap(), raw);
}

#[test]
fn batch_reads_are_capped_by_the_configuration() {
    let mut seg = segment_with(&[b"a", b"b", b"c"]);
    let mut reader = LogReader::new(LogReaderConfig::default().with_batch_size(2));
    assert_eq!(reader.read_batch(&mut seg, 10).unwrap().len(), 2);
    assert_eq!(reader.read_batch(&mut seg, 10).unwrap(), vec![b"c".to_vec()]);
}

#[test]
fn created_segment_names_are_found_again() {
    let mut manager = SegmentManager::new(SegmentConfig::new("d").with_prefix("log-").with_extension("seg"), &[]);
    let (id1, p1) = manager.create_segment();
    let (id2, p2) = manager.create_segment();
    let names: Vec<(String, u64)> = [p2, p1]
        .iter()
        .map(|p| (p.rsplit('/').next().unwrap().to_string(), 0))
        .collect();
    let rescanned = SegmentManager::new(SegmentConfig::new("d").with_prefix("log-").with_extension("seg"), &names);
    let ids: Vec<u64> = rescanned.segments().iter().map(|s| s.id).collect();
    assert_eq!(ids, vec![id1, id2]);
}

#[test]
fn incremental_recovery_needs_a_record_at_the_checkpoint() {
    let manager = RecoveryManager::new("d");
    let mut content = 2u64.to_be_bytes().to_vec();
    content.extend_from_slice(b"ok");
    let at_start = Checkpoint::new(CheckpointPosition { segment_id: 3, offset: 0, last_record_start: 0 });
    let result = manager.incremental_result(&at_start, &content).unwrap();
    assert_eq!(result.last_valid_position.segment_id, 3);
    assert_eq!(result.records_recovered, 0);
    let at_end = Checkpoint::new(CheckpointPosition { segment_id: 3, offset: 10, last_record_start: 0 });
    assert!(manager.incremental_result(&at_end, &content).is_none());
}
