use storage_engine::config::{
    Config, MetricsConfig, ProcessingConfig, RetryConfig, ServerConfig, StorageConfig,
};
use storage_engine::error::ConfigError;

fn base_config() -> Config {
    Config {
        server: ServerConfig {
            host: "localhost".into(),
            port: 8080,
            max_connections: 1000,
        },
        storage: StorageConfig {
            bucket: "test-bucket".into(),
            prefix: "test".into(),
            region: "us-west-2".into(),
        },
        processing: ProcessingConfig {
            batch_size: 100,
            batch_timeout_ms: 1000,
        },
        retry: RetryConfig::default(),
        metrics: MetricsConfig::default(),
    }
}

#[test]
fn test_config_validation() {
    let config = Config {
        server: ServerConfig {
            host: "localhost".into(),
            port: 8080,
            max_connections: 1000,
        },
        storage: StorageConfig {
            bucket: "test-bucket".into(),
            prefix: "test".into(),
            region: "us-west-2".into(),
        },
        processing: ProcessingConfig {
            batch_size: 0, // Invalid
            batch_timeout_ms: 1000,
        },
        retry: RetryConfig::default(),
        metrics: MetricsConfig::default(),
    };

    assert!(config.validate().is_err());
}

#[test]
fn test_valid_config_passes() {
    assert!(base_config().validate().is_ok());
}

#[test]
fn test_zero_batch_timeout_rejected() {
    let mut config = base_config();
    config.processing.batch_timeout_ms = 0;
    match config.validate() {
        Err(ConfigError::InvalidValue(msg)) => assert_eq!(msg, "batch_timeout_ms must be > 0"),
        other => panic!("expected InvalidValue, got {:?}", other),
    }
}

#[test]
fn test_zero_retries_rejected() {
    let mut config = base_config();
    config.retry.max_retries = 0;
    match config.validate() {
        Err(ConfigError::InvalidValue(msg)) => assert_eq!(msg, "max_retries must be > 0"),
        other => panic!("expected InvalidValue, got {:?}", other),
    }
}

#[test]
fn test_inverted_backoff_rejected() {
    let mut config = base_config();
    config.retry.initial_backoff_ms = 2000;
    config.retry.max_backoff_ms = 100;
    match config.validate() {
        Err(ConfigError::InvalidValue(msg)) => {
            assert_eq!(msg, "max_backoff_ms must be >= initial_backoff_ms")
        }
        other => panic!("expected InvalidValue, got {:?}", other),
    }
}

#[test]
fn test_config_new_validates() {
    let c = base_config();
    let built = Config::new(c.server, c.storage, c.processing, c.retry, c.metrics);
    assert!(built.is_ok());

    let c = base_config();
    let mut processing = c.processing;
    processing.batch_size = 0;
    let rejected = Config::new(c.server, c.storage, processing, c.retry, c.metrics);
    assert!(rejected.is_err());
}

#[test]
fn test_defaults() {
    let p = ProcessingConfig::default();
    assert_eq!(p.batch_size, 100);
    assert_eq!(p.batch_timeout_ms, 5000);
    let r = RetryConfig::default();
    assert_eq!(r.max_retries, 3);
    assert_eq!(r.initial_backoff_ms, 100);
    assert_eq!(r.max_backoff_ms, 1000);
    let m = MetricsConfig::default();
    assert!(m.enabled);
    assert_eq!(m.push_interval_ms, 10000);
}
