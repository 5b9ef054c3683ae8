use easy_wal::storage::log_reader::{LogReaderConfig, ReadPosition};
use easy_wal::storage::log_writer::LogWriterConfig;
use easy_wal::storage::wal_manager as simple;
use easy_wal::wal::sync_strategy::SyncMode;
use easy_wal::wal::wal_manager::{WalBuilder, WalConfig};

#[test]
fn reader_and_writer_configs() {
    let r = LogReaderConfig::default().with_dir("/tmp/w").with_batch_size(7);
    assert_eq!(r.segment_config.dir, "/tmp/w");
    assert_eq!(r.batch_size, 7);
    assert_eq!(r.read_buffer_size, 64 * 1024);
    let w = LogWriterConfig::default().with_dir("x").with_max_segment_size(10);
    assert_eq!(w.segment_config.max_segment_size, 10);
    assert_eq!(w.segment_config.dir, "x");
    assert_eq!(w.buffer_size, 64 * 1024);
    let p = ReadPosition { segment_id: 1, offset: 16 };
    assert_eq!(p, ReadPosition { segment_id: 1, offset: 16 });
}

#[test]
fn coordinated_wal_config_and_builder() {
    let c = WalConfig::default();
    assert_eq!(c.dir, "wal_data");
    assert_eq!(c.max_segment_size, 64 * 1024 * 1024);
    assert_eq!(c.sync_mode, SyncMode::NoSync);
    assert_eq!(c.batch_size, 100);
    assert_eq!(c.read_ahead_size, 64 * 1024);
    let c = c.with_sync_on_write(true).with_read_ahead_size(10).with_dir("d").with_batch_size(3).with_max_segment_size(9);
    assert_eq!(c.sync_mode, SyncMode::FsyncOnWrite);
    assert_eq!((c.read_ahead_size, c.batch_size, c.max_segment_size), (10, 3, 9));
    let b = WalBuilder::new()
        .with_dir("w")
        .with_sync_mode(SyncMode::Periodic { interval_ms: 5 })
        .with_batch_size(2)
        .with_read_ahead_size(1)
        .with_max_segment_size(4)
        .with_sync_on_write(false);
    assert_eq!(b.config().dir, "w");
    assert_eq!(b.config().sync_mode, SyncMode::NoSync);
    assert_eq!(b.config().batch_size, 2);
    assert_eq!(WalBuilder::default().config().dir, "wal_data");
}

#[test]
fn simple_wal_config_and_builder() {
    let c = simple::WalConfig::default();
    assert!(!c.sync_on_write);
    assert_eq!(c.max_segment_size, 64 * 1024 * 1024);
    let b = simple::WalBuilder::new().with_dir("q").with_sync_on_write(true).with_batch_size(4).with_max_segment_size(8);
    assert_eq!(b.config().dir, "q");
    assert!(b.config().sync_on_write);
    assert_eq!((b.config().batch_size, b.config().max_segment_size), (4, 8));
}
