use easy_wal::storage::memory_storage::MemoryStorage;
use easy_wal::storage::{create_memory_storage, Location, Storage, StorageStats};
use easy_wal::Error;

#[test]
fn test_location_new() {
    let loc = Location::new(100, 50);
    assert_eq!(loc.offset, 100);
    assert_eq!(loc.length, 50);
}

#[test]
fn test_storage_stats_default() {
    let stats = StorageStats::default();
    assert_eq!(stats.size, 0);
    assert_eq!(stats.bytes_written, 0);
    assert_eq!(stats.bytes_read, 0);
}

#[test]
fn test_basic_operations() {
    let mut storage = MemoryStorage::new();

    let offset = storage.append(b"hello").unwrap();
    assert_eq!(offset, 0);

    let offset = storage.append(b" world").unwrap();
    assert_eq!(offset, 5);

    let data = storage.read(0, 11).unwrap();
    assert_eq!(data, b"hello world");

    let size = storage.size().unwrap();
    assert_eq!(size, 11);
}

#[test]
fn test_write_and_read() {
    let mut storage = MemoryStorage::new();

    storage.write(0, b"hello").unwrap();
    storage.write(5, b" world").unwrap();

    let data = storage.read(0, 11).unwrap();
    assert_eq!(data, b"hello world");
}

#[test]
fn test_auto_expand() {
    let mut storage = MemoryStorage::new();

    storage.write(100, b"test").unwrap();

    let size = storage.size().unwrap();
    assert_eq!(size, 104);

    let data = storage.read(0, 104).unwrap();
    assert_eq!(&data[0..100], &[0; 100]);
    assert_eq!(&data[100..104], b"test");
}

#[test]
fn test_batch_operations() {
    let mut storage = MemoryStorage::new();

    let offsets = [0u64, 10, 20];
    let data_list: Vec<&[u8]> = vec![b"aaa", b"bbb", b"ccc"];
    storage.write_batch(&offsets, &data_list).unwrap();

    let locations = vec![
        Location::new(0, 3),
        Location::new(10, 3),
        Location::new(20, 3),
    ];
    let results = storage.read_batch(&locations).unwrap();

    assert_eq!(results[0], b"aaa");
    assert_eq!(results[1], b"bbb");
    assert_eq!(results[2], b"ccc");
}

#[test]
fn test_truncate() {
    let mut storage = MemoryStorage::new();

    storage.append(b"hello world").unwrap();
    assert_eq!(storage.size().unwrap(), 11);

    storage.truncate(5).unwrap();
    assert_eq!(storage.size().unwrap(), 5);

    let data = storage.read(0, 10).unwrap();
    assert_eq!(data, b"hello");
}

#[test]
fn test_stats() {
    let mut storage = MemoryStorage::new();

    storage.append(b"hello").unwrap();
    storage.append(b" world").unwrap();
    storage.read(0, 5).unwrap();

    let stats = storage.stats();
    assert_eq!(stats.bytes_written, 11);
    assert_eq!(stats.bytes_read, 5);
    assert_eq!(stats.write_ops, 2);
    assert_eq!(stats.read_ops, 1);
    assert_eq!(stats.size, 11);
}

#[test]
fn test_out_of_bounds_read() {
    let mut storage = MemoryStorage::new();

    let data = storage.read(0, 10).unwrap();
    assert!(data.is_empty());

    storage.append(b"hello").unwrap();

    let data = storage.read(10, 5).unwrap();
    assert!(data.is_empty());

    let data = storage.read(3, 10).unwrap();
    assert_eq!(data, b"lo");
}

#[test]
fn write_batch_refuses_lists_of_different_lengths() {
    let mut storage = create_memory_storage();
    let data_list: Vec<&[u8]> = vec![b"a"];
    match storage.write_batch(&[0, 1], &data_list) {
        Err(Error::Generic(m)) => assert_eq!(m, "offsets and data_list must have the same length"),
        _ => panic!("expected an error"),
    }
    assert_eq!(storage.size().unwrap(), 0);
}

#[test]
fn append_batch_places_items_one_after_another() {
    let mut storage = MemoryStorage::with_capacity(16);
    storage.append(b"xy").unwrap();
    let data_list: Vec<&[u8]> = vec![b"a", b"bb", b"ccc"];
    let offsets = storage.append_batch(&data_list).unwrap();
    assert_eq!(offsets, vec![2, 3, 5]);
    assert_eq!(storage.snapshot(), b"xyabbccc".to_vec());
    let stats = storage.stats();
    assert_eq!(stats.write_ops, 2);
    assert_eq!(stats.bytes_written, 8);
    assert_eq!(storage.append_batch(&[]).unwrap(), Vec::<u64>::new());
    assert_eq!(storage.stats().write_ops, 2);
}

#[test]
fn truncate_past_the_end_keeps_everything() {
    let mut storage = MemoryStorage::default();
    storage.append(b"abc").unwrap();
    storage.truncate(10).unwrap();
    assert_eq!(storage.snapshot(), b"abc".to_vec());
    storage.sync().unwrap();
    storage.close().unwrap();
    assert_eq!(storage.stats().size, 3);
}

#[test]
fn reads_of_any_range_give_the_bytes_available() {
    let mut m = MemoryStorage::new();
    m.append(b"abcdef").unwrap();
    assert_eq!(m.read(2, u64::MAX).unwrap(), b"cdef".to_vec());
    assert_eq!(m.read(u64::MAX, u64::MAX).unwrap(), Vec::<u8>::new());
    assert_eq!(m.read(6, 1).unwrap(), Vec::<u8>::new());
    assert_eq!(m.size().unwrap(), 6);
}
