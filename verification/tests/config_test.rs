use easy_wal::{Config, Error, PersistenceMode};

#[test]
fn test_default_config() {
    let config = Config::default();
    assert_eq!(config.segment_size(), 1024 * 1024 * 1024);
    assert_eq!(config.persistence_mode(), PersistenceMode::Immediate);
}

#[test]
fn test_custom_config() {
    let config = Config::new()
        .with_segment_size(1024)
        .with_persistence_mode(PersistenceMode::Batch);

    assert_eq!(config.segment_size(), 1024);
    assert_eq!(config.persistence_mode(), PersistenceMode::Batch);
}

#[test]
fn test_config_validation() {
    let valid_config = Config::new().with_segment_size(1024);
    assert!(valid_config.validate().is_ok());

    let invalid_config = Config::new().with_segment_size(0);
    assert!(invalid_config.validate().is_err());
}

#[test]
fn test_library_exports() {
    let config = Config::default();
    assert!(config.segment_size() > 0);

    let persistence_mode = PersistenceMode::Immediate;
    assert_eq!(persistence_mode, PersistenceMode::Immediate);
}

#[test]
fn test_wal_config_default() {
    let config = Config::default();

    assert!(config.segment_size() > 0);
    assert_eq!(
        config.persistence_mode(),
        easy_wal::PersistenceMode::Immediate
    );
}

#[test]
fn test_wal_config_custom() {
    let config = Config::new()
        .with_segment_size(1024 * 1024)
        .with_persistence_mode(easy_wal::PersistenceMode::Batch);

    assert_eq!(config.segment_size(), 1024 * 1024);
    assert_eq!(config.persistence_mode(), easy_wal::PersistenceMode::Batch);
}

#[test]
fn config_validation_error_message() {
    let err = Config::new().with_segment_size(0).validate().unwrap_err();
    match err {
        Error::Config { message } => assert_eq!(message, "segment size must be greater than 0"),
        _ => panic!("expected a configuration error"),
    }
    assert_eq!(PersistenceMode::default(), PersistenceMode::Immediate);
    assert_eq!(Config::new().persistence_mode(), PersistenceMode::Immediate);
    assert_eq!(Config::new().with_persistence_mode(PersistenceMode::Manual).persistence_mode(), PersistenceMode::Manual);
}
