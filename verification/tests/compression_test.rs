use easy_wal::compression::{CompressionAlgo, COMPRESSION_NONE, COMPRESSION_SNAPPY, COMPRESSION_ZSTD};
use easy_wal::Error;

#[test]
fn test_compression_algo_conversion() {
    assert_eq!(CompressionAlgo::Uncompressed.to_byte(), COMPRESSION_NONE);
    assert_eq!(CompressionAlgo::Snappy.to_byte(), COMPRESSION_SNAPPY);
    assert_eq!(CompressionAlgo::Zstd.to_byte(), COMPRESSION_ZSTD);

    assert_eq!(
        CompressionAlgo::from_byte(COMPRESSION_NONE),
        Some(CompressionAlgo::Uncompressed)
    );
    assert_eq!(
        CompressionAlgo::from_byte(COMPRESSION_SNAPPY),
        Some(CompressionAlgo::Snappy)
    );
    assert_eq!(
        CompressionAlgo::from_byte(COMPRESSION_ZSTD),
        Some(CompressionAlgo::Zstd)
    );
    assert_eq!(CompressionAlgo::from_byte(0xFF), None);
}

#[test]
fn test_none_compress_decompress() {
    let algo = CompressionAlgo::Uncompressed;
    let data = b"test data";

    let compressed = algo.compress(data).unwrap();
    let decompressed = algo.decompress(&compressed).unwrap();

    assert_eq!(decompressed, data);
    assert_eq!(compressed, data);
}

#[test]
fn test_compression_not_enabled() {
    let algo = CompressionAlgo::Snappy;
    let data = b"test data";

    let result = algo.compress(data);
    assert!(result.is_err());

    let result = algo.decompress(data);
    assert!(result.is_err());
}

#[test]
fn compression_tags_round_trip() {
    for algo in [CompressionAlgo::Uncompressed, CompressionAlgo::Snappy, CompressionAlgo::Zstd] {
        assert_eq!(CompressionAlgo::from_byte(algo.to_byte()), Some(algo));
    }
    for byte in 3u8..=255 {
        assert_eq!(CompressionAlgo::from_byte(byte), None);
    }
}

#[test]
fn unavailable_algorithm_reports_why() {
    match CompressionAlgo::Zstd.decompress(b"x") {
        Err(Error::Compression(m)) => assert_eq!(m, "Compression feature not enabled"),
        _ => panic!("expected a compression error"),
    }
    assert_eq!(CompressionAlgo::Uncompressed.compress(b"").unwrap(), Vec::<u8>::new());
}
