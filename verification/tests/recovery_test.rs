use easy_wal::wal::recovery::{Checkpoint, CheckpointPosition, RecoveryManager, RecoveryMode, RecoveryResult};

#[test]
fn test_checkpoint_serialization() {
    let position = CheckpointPosition { segment_id: 1, offset: 100, last_record_start: 92 };
    let checkpoint = Checkpoint::new(position);
    let bytes = checkpoint.to_bytes();
    let restored = Checkpoint::from_bytes(&bytes).unwrap();
    assert_eq!(restored.last_valid_position.segment_id, 1);
    assert_eq!(restored.last_valid_position.offset, 100);
    assert_eq!(restored.last_valid_position.last_record_start, 92);
}

#[test]
fn test_checkpoint_with_sealed_segments() {
    let position = CheckpointPosition::default();
    let checkpoint = Checkpoint::new(position).with_sealed_segment(1).with_sealed_segment(2);
    let bytes = checkpoint.to_bytes();
    let restored = Checkpoint::from_bytes(&bytes).unwrap();
    assert_eq!(restored.sealed_segments, vec![1, 2]);
}

#[test]
fn short_checkpoints_are_refused() {
    assert!(Checkpoint::from_bytes(&[0u8; 31]).is_err());
    let mut bytes = Checkpoint::new(CheckpointPosition::default()).with_sealed_segment(9).to_bytes();
    bytes.truncate(bytes.len() - 1);
    assert!(Checkpoint::from_bytes(&bytes).is_err());
}

#[test]
fn test_verify_record() {
    let manager = RecoveryManager::new("d");
    let data = b"hello world";
    let mut content = (data.len() as u64).to_be_bytes().to_vec();
    content.extend_from_slice(data);
    assert!(manager.verify_record(&content, 0));
    assert!(!manager.verify_record(&content, 8));
}

#[test]
fn scan_counts_records_and_skips_damage() {
    let manager = RecoveryManager::new("d");
    let mut content = 3u64.to_be_bytes().to_vec();
    content.extend_from_slice(b"abc");
    content.extend_from_slice(&[0u8, 0]);
    content.extend_from_slice(&1u64.to_be_bytes());
    content.push(b'z');
    content.push(9);
    let mut result = RecoveryResult::empty();
    let truncate = manager.scan_segment(&content, 4, &mut result);
    assert_eq!(result.records_recovered, 2);
    assert_eq!(result.corrupted_skipped, 2);
    assert_eq!(result.last_valid_position.segment_id, 4);
    assert_eq!(result.last_valid_position.last_record_start, 13);
    assert_eq!(result.last_valid_position.offset, 22);
    assert_eq!(truncate, Some(22));
    let verify = RecoveryManager::new("d").with_mode(RecoveryMode::VerifyOnly);
    let mut r2 = RecoveryResult::empty();
    assert_eq!(verify.scan_segment(&content, 4, &mut r2), None);
    assert_eq!(r2.records_recovered, 0);
}

#[test]
fn segment_names_and_paths() {
    let manager = RecoveryManager::new("d");
    assert_eq!(manager.dir(), "d");
    assert_eq!(RecoveryManager::segment_id_of("00000000000000000007.seg"), Some(7));
    assert_eq!(RecoveryManager::segment_id_of("other.txt"), None);
    let p = manager.segment_path(7);
    assert_eq!(RecoveryManager::segment_id_of(p.rsplit('/').next().unwrap()), Some(7));
}

#[test]
fn repeated_seg_suffixes_are_trimmed() {
    assert_eq!(RecoveryManager::segment_id_of("12.seg.seg"), Some(12));
    assert_eq!(RecoveryManager::segment_id_of("12"), None);
}

#[test]
fn checkpoint_after_scan_unless_verifying() {
    let mut result = RecoveryResult::empty();
    result.last_valid_position = CheckpointPosition { segment_id: 3, offset: 40, last_record_start: 20 };
    result.count_truncation();
    assert_eq!(result.segments_truncated, 1);
    let full = RecoveryManager::new("d").with_mode(RecoveryMode::FullScan);
    assert_eq!(full.checkpoint_after_scan(&result), Some(result.last_valid_position));
    let verify = RecoveryManager::new("d").with_mode(RecoveryMode::VerifyOnly);
    assert_eq!(verify.checkpoint_after_scan(&result), None);
}

#[test]
fn checkpoint_data_shorter_than_its_fixed_fields_is_refused() {
    match Checkpoint::from_bytes(&[0u8; 35]) {
        Err(easy_wal::Error::Generic(m)) => assert_eq!(m, "Invalid checkpoint data"),
        _ => panic!("expected an error"),
    }
    assert!(Checkpoint::from_bytes(&[0u8; 40]).is_ok());
}
