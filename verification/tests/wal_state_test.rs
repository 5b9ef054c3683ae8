use easy_wal::segment::{segment_file_name, HEADER_SIZE};
use easy_wal::{Config, Error, LogSegment, PersistenceMode, Wal};

fn new_wal(segment_size: usize) -> Wal {
    Wal::create("wal".to_string(), Config::new().with_segment_size(segment_size)).unwrap()
}

#[test]
fn create_starts_with_one_empty_segment() {
    let wal = new_wal(1024);
    assert_eq!(wal.path(), "wal");
    assert_eq!(wal.segment_count(), 1);
    assert_eq!(wal.next_offset(), 0);
    assert_eq!(wal.segment(0).path(), "wal/00000000000000000000.log");
    assert!(!wal.is_closed());
    assert!(wal.write_needs_sync());
}

#[test]
fn create_refuses_invalid_config() {
    assert!(matches!(Wal::create("wal".to_string(), Config::new().with_segment_size(0)), Err(Error::Config { .. })));
}

#[test]
fn appended_records_are_found_where_written() {
    let mut wal = new_wal(1024);
    let a = wal.append(b"first");
    let b = wal.append(b"second");
    assert_eq!(a, 0);
    assert_eq!(b, (HEADER_SIZE + 5) as u64);
    assert_eq!(wal.next_offset(), (2 * HEADER_SIZE + 11) as u64);
    assert_eq!(wal.read(a).unwrap(), (0, 0));
    assert_eq!(wal.read(b).unwrap(), (0, b));
}

#[test]
fn prepare_write_asks_for_rotation_past_the_segment_size() {
    let mut wal = new_wal(40);
    assert_eq!(wal.prepare_write(20).unwrap(), false);
    wal.append(&[7u8; 20]);
    assert_eq!(wal.prepare_write(1).unwrap(), true);
    let base = wal.rotate();
    assert_eq!(base, 32);
    assert_eq!(wal.segment_count(), 2);
    assert_eq!(wal.active_index(), 1);
    assert_eq!(wal.segment(1).path(), "wal/00000000000000000032.log");
    let c = wal.append(b"x");
    assert_eq!(c, 32);
    assert_eq!(wal.read(c).unwrap(), (1, 0));
    assert_eq!(wal.read(0).unwrap(), (0, 0));
}

#[test]
fn reads_outside_every_segment_are_refused() {
    let mut wal = new_wal(1024);
    wal.append(b"abc");
    assert!(matches!(wal.read(15), Err(Error::Corruption { offset: 15, .. })));
    let mut wal2 = Wal::open("w".to_string(), vec![LogSegment::create("w/a".to_string(), 100)]);
    wal2.append(b"z");
    assert!(matches!(wal2.read(5), Err(Error::SegmentNotFound { offset: 5 })));
}

#[test]
fn closed_wal_refuses_everything() {
    let mut wal = new_wal(1024);
    wal.append(b"abc");
    assert!(wal.close().is_ok());
    assert!(wal.is_closed());
    assert!(wal.close().is_ok());
    assert!(wal.is_closed());
    assert!(matches!(wal.read(0), Err(Error::Closed)));
    assert!(matches!(wal.flush(), Err(Error::Closed)));
    assert!(matches!(wal.prepare_write(1), Err(Error::Closed)));
    assert!(matches!(wal.prune_segments(0), Err(Error::Closed)));
}

#[test]
fn open_orders_found_segments_and_finds_the_end() {
    let s1 = LogSegment::open("w/b".to_string(), &segment_file_name(50), 30).unwrap();
    let s0 = LogSegment::open("w/a".to_string(), &segment_file_name(0), 50).unwrap();
    let wal = Wal::open("w".to_string(), vec![s1, s0]);
    assert_eq!(wal.segment_count(), 2);
    assert_eq!(wal.segment(0).base_offset(), 0);
    assert_eq!(wal.segment(1).base_offset(), 50);
    assert_eq!(wal.next_offset(), 80);
    assert_eq!(wal.config().persistence_mode(), PersistenceMode::Immediate);
}

#[test]
fn pruning_removes_whole_old_segments_only() {
    let mut wal = new_wal(20);
    wal.append(b"aaaa");
    wal.rotate();
    wal.append(b"bbbb");
    wal.rotate();
    wal.append(b"cccc");
    assert_eq!(wal.segment_count(), 3);
    let removed = wal.prune_segments(20).unwrap();
    assert_eq!(removed, vec![0]);
    assert_eq!(wal.segment_count(), 2);
    assert!(matches!(wal.read(0), Err(Error::SegmentNotFound { offset: 0 })));
    assert_eq!(wal.read(16).unwrap(), (0, 0));
    let removed = wal.prune_segments(u64::MAX).unwrap();
    assert_eq!(removed, vec![16]);
    assert_eq!(wal.segment_count(), 1);
    assert_eq!(wal.flush().unwrap(), 0);
}

#[test]
fn open_of_an_empty_directory_starts_segment_zero() {
    let wal = Wal::open("w".to_string(), Vec::new());
    assert_eq!(wal.segment_count(), 1);
    assert_eq!(wal.next_offset(), 0);
    assert_eq!(wal.segment(0).base_offset(), 0);
    assert_eq!(wal.segment(0).size(), 0);
    assert_eq!(wal.segment(0).path(), "w/00000000000000000000.log");
}

#[test]
fn reopened_wal_reads_back_and_continues() {
    let mut wal = new_wal(1024);
    let o1 = wal.append(b"abc");
    let o2 = wal.append(b"hello");
    assert_eq!((o1, o2), (0, 15));
    let end = wal.next_offset();
    assert_eq!(end, 32);
    assert!(wal.close().is_ok());
    let seg = LogSegment::open("wal/a".to_string(), &segment_file_name(0), end).unwrap();
    let reopened = Wal::open("wal".to_string(), vec![seg]);
    assert_eq!(reopened.next_offset(), end);
    assert_eq!(reopened.read(o1).unwrap(), (0, 0));
    assert_eq!(reopened.read(o2).unwrap(), (0, 15));
}
