use easy_wal::storage::segment_manager::{SegmentConfig, SegmentManager};

fn found(entries: &[(&str, u64)]) -> Vec<(String, u64)> {
    entries.iter().map(|(n, s)| (n.to_string(), *s)).collect()
}

#[test]
fn test_config_default() {
    let config = SegmentConfig::default();
    assert_eq!(config.max_segment_size, 1024 * 1024 * 1024);
    assert_eq!(config.prefix, "segment");
    assert_eq!(config.extension, "wal");
}

#[test]
fn test_config_builder() {
    let config = SegmentConfig::new("/tmp/wal")
        .with_max_size(1000)
        .with_prefix("test")
        .with_extension("log");

    assert_eq!(config.max_segment_size, 1000);
    assert_eq!(config.prefix, "test");
    assert_eq!(config.extension, "log");
}

#[test]
fn test_create_manager() {
    let manager = SegmentManager::new(SegmentConfig::new("d"), &[]);
    assert_eq!(manager.segment_count(), 0);
}

#[test]
fn test_create_segment() {
    let mut manager = SegmentManager::new(SegmentConfig::new("d"), &[]);
    let (id, path) = manager.create_segment();
    assert_eq!(id, 1);
    assert_eq!(path, "d/segment1.wal");
    assert_eq!(manager.active_id(), 1);
}

#[test]
fn test_rotate() {
    let mut manager = SegmentManager::new(SegmentConfig::new("d").with_max_size(100), &[]);
    assert_eq!(manager.active_id(), 0);
    let should_rotate = manager.update_active_size(100);
    assert!(should_rotate);
    let (id, _path) = manager.rotate();
    assert_eq!(id, 1);
}

#[test]
fn test_update_size() {
    let mut manager = SegmentManager::new(SegmentConfig::new("d").with_max_size(100), &[]);
    let should_rotate = manager.update_active_size(50);
    assert!(!should_rotate);
    assert_eq!(manager.active_size(), 50);
    let should_rotate = manager.update_active_size(50);
    assert!(should_rotate);
    assert_eq!(manager.active_size(), 100);
}

#[test]
fn test_scan_existing_segments() {
    let manager = SegmentManager::new(
        SegmentConfig::new("d"),
        &found(&[("segment0.wal", 5), ("segment1.wal", 5), ("segment2.wal", 5)]),
    );
    assert_eq!(manager.segment_count(), 3);
}

#[test]
fn test_remove_segment() {
    let mut manager = SegmentManager::new(SegmentConfig::new("d"), &[]);
    let (id, path) = manager.create_segment();
    let removed = manager.remove_segment(id);
    assert_eq!(removed, Some(path));
    assert_eq!(manager.segment_count(), 0);
    assert_eq!(manager.remove_segment(id), None);
}

#[test]
fn scan_sorts_by_id_and_ignores_other_files() {
    let manager = SegmentManager::new(
        SegmentConfig::new("d/"),
        &found(&[
            ("segment10.wal", 30),
            ("notes.txt", 1),
            ("segment2.wal", 20),
            ("segmentx.wal", 7),
            ("segment2.wal.bak", 9),
            ("segment02.wal", 21),
        ]),
    );
    let ids: Vec<u64> = manager.segments().iter().map(|s| s.id).collect();
    assert_eq!(ids, vec![0, 2, 2, 10]);
    assert_eq!(manager.segments()[1].path, "d/segment2.wal");
    assert_eq!(manager.segments()[2].path, "d/segment02.wal");
    assert_eq!(manager.active_id(), 10);
    assert_eq!(manager.active_size(), 30);
    let active: Vec<u64> = manager.segments().iter().filter(|s| s.is_active).map(|s| s.id).collect();
    assert_eq!(active, vec![10]);
    assert!(manager.segments()[3].is_active);
    assert_eq!(manager.active_path(), "d/segment10.wal");
    assert_eq!(manager.get_segment(2).unwrap().size, 20);
    assert!(manager.get_segment(3).is_none());
}

#[test]
fn created_segments_get_fresh_ids_and_mark_the_old_one_inactive() {
    let mut manager = SegmentManager::new(SegmentConfig::new("d").with_max_size(10), &found(&[("segment4.wal", 3)]));
    assert_eq!(manager.active_id(), 4);
    assert!(!manager.update_active_size(2));
    assert_eq!(manager.get_segment(4).unwrap().size, 5);
    let (id, path) = manager.create_segment();
    assert_eq!((id, path.as_str()), (5, "d/segment5.wal"));
    assert!(manager.get_segment(5).unwrap().is_active);
    assert!(!manager.get_segment(4).unwrap().is_active);
    assert_eq!(manager.active_size(), 0);
    assert!(manager.update_active_size(10));
    assert!(!manager.get_segment(5).unwrap().is_active);
    assert_eq!(manager.get_segment(5).unwrap().size, 10);
    assert!(manager.should_rotate());
    assert_eq!(manager.make_path(7), "d/segment7.wal");
    assert_eq!(manager.config().prefix, "segment");
}

#[test]
fn test_segment_manager_existing_files() {
    let config = SegmentConfig::new("wal_dir").with_prefix("segment");
    let manager = SegmentManager::new(
        config,
        &found(&[("segment5.wal", 5), ("segment10.wal", 6), ("segment15.wal", 6)]),
    );
    assert_eq!(manager.segment_count(), 3);
    let active = manager.get_segment(15).unwrap();
    assert!(active.is_active);
    assert!(!manager.get_segment(5).unwrap().is_active);
    assert!(!manager.get_segment(10).unwrap().is_active);
    assert_eq!(manager.active_id(), 15);
}
