use easy_wal::wal::sync_strategy::{SyncMode, SyncStats, SyncStrategy};
use easy_wal::wal::segment_coordinator::{should_rotate, RotationConfig, SegmentCoordinator};
use easy_wal::storage::segment_manager::SegmentConfig;

#[test]
fn test_sync_mode_none() {
    let strategy = SyncStrategy::new(SyncMode::NoSync);
    assert_eq!(strategy.mode(), SyncMode::NoSync);
    assert_eq!(strategy.pending_bytes(), 0);
}

#[test]
fn test_fsync_on_write() {
    let mut strategy = SyncStrategy::new(SyncMode::FsyncOnWrite);
    let should_sync = strategy.on_write(100);
    assert!(should_sync.is_some());
    assert_eq!(should_sync.unwrap(), 100);
    strategy.on_synced(100, 5);
    assert_eq!(strategy.pending_bytes(), 0);
}

#[test]
fn test_periodic_sync() {
    let mut strategy = SyncStrategy::periodic(100_000);
    assert!(strategy.on_write(100).is_none());
    assert_eq!(strategy.pending_bytes(), 100);
}

#[test]
fn periodic_decision_follows_elapsed_time() {
    let mut strategy = SyncStrategy::periodic(100);
    assert_eq!(strategy.on_write_after(10, 99), None);
    assert_eq!(strategy.on_write_after(10, 100), Some(20));
    let mut none = SyncStrategy::default();
    assert_eq!(none.on_write_after(10, 1_000_000), None);
    assert_eq!(none.pending_bytes(), 10);
}

#[test]
fn sync_statistics() {
    let mut strategy = SyncStrategy::new(SyncMode::FsyncOnWrite);
    strategy.on_write(100);
    strategy.on_synced(100, 5);
    let stats = strategy.stats();
    assert_eq!(stats.sync_count, 1);
    assert_eq!(stats.synced_bytes, 100);
    assert_eq!(stats.sync_time_ms, 5);
    assert!(stats.last_sync_at.is_some());
    strategy.on_write(10);
    strategy.on_synced(50, 1);
    assert_eq!(strategy.pending_bytes(), 0);
    let mut s = SyncStats::new();
    assert_eq!(s.avg_sync_size(), 0);
    assert_eq!(s.avg_sync_latency(), 0);
    s.record(100, 10);
    s.record(51, 3);
    assert_eq!(s.avg_sync_size(), 75);
    assert_eq!(s.avg_sync_latency(), 6);
}

#[test]
fn test_reset() {
    let mut strategy = SyncStrategy::new(SyncMode::FsyncOnWrite);
    strategy.on_write(100);
    assert_eq!(strategy.pending_bytes(), 100);
    strategy.reset();
    assert_eq!(strategy.pending_bytes(), 0);
}

#[test]
fn rotation_policy() {
    let c = RotationConfig::new().with_max_size(100).with_max_records(5).with_max_age(1000);
    assert!(!should_rotate(&c, 99, 4, Some(999)));
    assert!(should_rotate(&c, 100, 0, None));
    assert!(should_rotate(&c, 0, 5, None));
    assert!(should_rotate(&c, 0, 0, Some(1000)));
    assert!(!should_rotate(&RotationConfig::default(), 10, u64::MAX, Some(u64::MAX)));
}

#[test]
fn coordinator_rotates_when_full() {
    let mut coord = SegmentCoordinator::new(RotationConfig::new().with_max_size(100), SegmentConfig::new("d"), &[]);
    assert_eq!(coord.segment_count(), 0);
    assert!(coord.segments_is_empty());
    assert_eq!(coord.next_segment_path(), "d/segment1.wal");
    let (id, _) = coord.do_rotate();
    assert_eq!(id, 1);
    coord.update_size(23, 1);
    assert!(coord.check_and_rotate(None).is_none());
    for _ in 0..10 {
        coord.update_size(21, 1);
    }
    let rotated = coord.check_and_rotate(None);
    assert_eq!(rotated.map(|(i, _)| i), Some(2));
    assert_eq!(coord.active_segment_id(), 2);
    assert_eq!(coord.records_in_current_segment(), 0);
    assert_eq!(coord.active_segment_size(), 0);
}

#[test]
fn coordinator_rotates_by_records() {
    let mut coord = SegmentCoordinator::new(
        RotationConfig::new().with_max_size(10000).with_max_records(5),
        SegmentConfig::new("d"),
        &[],
    );
    coord.do_rotate();
    for _ in 0..5 {
        coord.update_size(20, 1);
    }
    assert!(coord.check_and_rotate(None).is_some());
    assert_eq!(coord.get_segment_meta(1).unwrap().size, 100);
}

#[test]
fn test_get_active_segment() {
    let mut coord = SegmentCoordinator::new(RotationConfig::new().with_max_size(1000), SegmentConfig::new("d"), &[]);
    let (id, path) = coord.active_segment();
    assert_eq!(id, 1);
    assert_eq!(path, "d/segment1.wal");
    let (id2, _) = coord.active_segment();
    assert_eq!(id2, 1);
    assert_eq!(coord.segment_count(), 1);
}

#[test]
fn test_force_rotate() {
    let mut coord = SegmentCoordinator::new(RotationConfig::new().with_max_size(10000), SegmentConfig::new("d"), &[]);
    assert_eq!(coord.active_segment().0, 1);
    let (new_id, _path) = coord.do_rotate();
    assert_eq!(new_id, 2);
    assert_eq!(coord.active_segment().0, 2);
    assert_eq!(coord.rotation_config().max_segment_size, 10000);
    assert_eq!(coord.segment_config().extension, "wal");
    assert_eq!(coord.manager().segment_count(), 2);
}

#[test]
fn record_at_keeps_the_given_instant() {
    let mut s = SyncStats::new();
    let now = std::time::Instant::now();
    s.record_at(7, 2, now);
    assert_eq!(s.sync_count, 1);
    assert_eq!(s.synced_bytes, 7);
    assert_eq!(s.sync_time_ms, 2);
    assert_eq!(s.last_sync_at, Some(now));
}

#[test]
fn coordinator_reports_when_the_segment_was_opened() {
    let mut coord = SegmentCoordinator::new(RotationConfig::new().with_max_size(100), SegmentConfig::new("d"), &[]);
    assert!(coord.stats().current_segment_created_at.is_none());
    let (id, _) = coord.active_segment();
    assert_eq!(id, 1);
    let now = std::time::Instant::now();
    coord.mark_opened(now);
    coord.update_size(10, 2);
    let st = coord.stats();
    assert_eq!(st.records_in_current_segment, 2);
    assert_eq!(st.current_segment_created_at, Some(now));
    coord.do_rotate();
    let st = coord.stats();
    assert_eq!(st.records_in_current_segment, 0);
    assert!(st.current_segment_created_at.is_none());
}
