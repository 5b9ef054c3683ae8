use easy_wal::{Error, Result};
use std::io;

#[test]
fn test_from_io_error() {
    let io_err = io::Error::new(io::ErrorKind::PermissionDenied, "permission denied");
    let error: Error = io_err.into();

    assert!(matches!(error, Error::Io(_)));
    assert!(error.to_string().contains("permission denied"));
}

#[test]
fn error_test_error_display() {
    let err = Error::Corruption {
        offset: 1024,
        reason: "CRC check failed".to_string(),
    };
    assert!(err.to_string().contains("1024"));
    assert!(err.to_string().contains("CRC check failed"));
}

#[test]
fn error_messages_of_every_variant() {
    let io = Error::Io(io::Error::new(io::ErrorKind::NotFound, "file not found"));
    assert!(io.to_string().starts_with("IO error: "));
    assert!(io.to_string().contains("file not found"));
    assert_eq!(
        Error::Corruption { offset: 1024, reason: "CRC check failed".to_string() }.to_string(),
        "Data corruption at offset 1024: CRC check failed"
    );
    assert_eq!(Error::SegmentNotFound { offset: 2048 }.to_string(), "Segment not found for offset: 2048");
    assert_eq!(
        Error::Config { message: "invalid config".to_string() }.to_string(),
        "Configuration error: invalid config"
    );
    assert_eq!(Error::Closed.to_string(), "WAL has been closed");
    assert_eq!(Error::Generic("plain".to_string()).to_string(), "plain");
    assert_eq!(Error::Eof.to_string(), "End of file");
    assert_eq!(Error::Sync("disk".to_string()).to_string(), "Sync error: disk");
    assert_eq!(Error::Compression("zz".to_string()).to_string(), "Compression error: zz");
}

#[test]
fn result_alias_carries_the_library_error() {
    fn fails() -> Result<u32> {
        Err(Error::Closed)
    }
    assert!(matches!(fails(), Err(Error::Closed)));
}

#[test]
fn error_test_error_send_sync() {
    fn assert_send_sync<T: Send + Sync>() {}
    assert_send_sync::<Error>();
}

#[test]
fn error_test_test_error_send_sync() {
    fn assert_send_sync<T: Send + Sync>() {}

    assert_send_sync::<Error>();
}

#[test]
fn error_test_test_error_display() {
    let errors = vec![
        Error::Io(io::Error::new(io::ErrorKind::NotFound, "file not found")),
        Error::Corruption {
            offset: 1024,
            reason: "CRC check failed".to_string(),
        },
        Error::SegmentNotFound { offset: 2048 },
        Error::Config {
            message: "invalid config".to_string(),
        },
        Error::Closed,
    ];

    for error in &errors {
        let display_str = error.to_string();
        assert!(!display_str.is_empty(), "Error display output is empty");
    }

    assert!(errors[0].to_string().contains("IO error"));
    assert!(errors[1].to_string().contains("Data corruption"));
    assert!(errors[2].to_string().contains("Segment not found"));
    assert!(errors[3].to_string().contains("Configuration error"));
    assert!(errors[4].to_string().contains("closed"));
}

#[test]
fn only_io_errors_have_a_source() {
    let io = Error::Io(io::Error::new(io::ErrorKind::Other, "disk"));
    assert_eq!(io.source().unwrap().kind(), io::ErrorKind::Other);
    assert!(Error::Closed.source().is_none());
    assert!(Error::Eof.source().is_none());
}
