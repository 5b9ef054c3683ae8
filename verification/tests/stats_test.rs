use easy_wal::stats::Stats;

#[test]
fn test_stats_recording() {
    let mut stats = Stats::new();

    let snapshot = stats.snapshot();
    assert_eq!(snapshot.write_count, 0);
    assert_eq!(snapshot.read_count, 0);
    assert_eq!(snapshot.total_records, 0);
    assert_eq!(snapshot.total_bytes, 0);

    stats.record_write(100);
    stats.record_write(200);
    let snapshot = stats.snapshot();
    assert_eq!(snapshot.write_count, 2);
    assert_eq!(snapshot.total_records, 2);
    assert_eq!(snapshot.total_bytes, 300);

    stats.record_read();
    stats.record_read();
    stats.record_read();
    let snapshot = stats.snapshot();
    assert_eq!(snapshot.read_count, 3);

    stats.record_flush();
    let snapshot = stats.snapshot();
    assert_eq!(snapshot.flush_count, 1);
}

#[test]
fn stats_test_segment_count() {
    let mut stats = Stats::new();

    let snapshot = stats.snapshot();
    assert_eq!(snapshot.segment_count, 1);

    stats.increment_segment_count();
    let snapshot = stats.snapshot();
    assert_eq!(snapshot.segment_count, 2);

    stats.decrement_segment_count();
    let snapshot = stats.snapshot();
    assert_eq!(snapshot.segment_count, 1);

    stats.set_segment_count(5);
    let snapshot = stats.snapshot();
    assert_eq!(snapshot.segment_count, 5);
}

#[test]
fn test_stats_disabled() {
    let mut stats = Stats::new();

    stats.record_write(100);
    stats.record_read();
    stats.record_flush();
    stats.increment_segment_count();
    stats.decrement_segment_count();
    stats.set_segment_count(5);

    let _snapshot = stats.snapshot();
}

#[test]
fn stats_counters_wrap_around() {
    let mut stats = Stats::new();
    stats.set_segment_count(0);
    stats.decrement_segment_count();
    assert_eq!(stats.snapshot().segment_count, u64::MAX);
    stats.increment_segment_count();
    assert_eq!(stats.snapshot().segment_count, 0);
    stats.record_write(u64::MAX);
    stats.record_write(2);
    assert_eq!(stats.snapshot().total_bytes, 1);
}
