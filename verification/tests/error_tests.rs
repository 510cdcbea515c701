use storage_engine::error::{status_kind_of, ProcessingError, StatusKind, StorageError};

#[test]
fn test_storage_error_conversion() {
    let storage_error = StorageError::WriteFailed("test error".to_string());
    let processing_error = ProcessingError::from(storage_error);

    match processing_error {
        ProcessingError::StorageError(msg) => {
            assert!(msg.contains("Write failed"));
            assert!(msg.contains("test error"));
        }
        _ => panic!("Wrong error type after conversion"),
    }
}

#[test]
fn test_error_display() {
    let error = ProcessingError::ValidationError("invalid input".to_string());
    assert_eq!(error.message(), "Validation error: invalid input");
}

#[test]
fn test_processing_error_messages() {
    assert_eq!(
        ProcessingError::ProcessingFailed("x".into()).message(),
        "Processing failed: x"
    );
    assert_eq!(
        ProcessingError::StorageError("x".into()).message(),
        "Storage error: x"
    );
    assert_eq!(
        ProcessingError::RateLimitExceeded("x".into()).message(),
        "Rate limit exceeded: x"
    );
    assert_eq!(
        ProcessingError::NotFound("x".into()).message(),
        "Resource not found: x"
    );
    assert_eq!(
        ProcessingError::ShutdownError("x".into()).message(),
        "Shutdown error: x"
    );
}

#[test]
fn test_storage_error_messages() {
    assert_eq!(
        StorageError::ConnectionError("s3 down".into()).message(),
        "Connection failed: s3 down"
    );
    assert_eq!(
        StorageError::BatchWriteFailed("b".into()).message(),
        "Batch write failed: b"
    );
    assert_eq!(
        StorageError::ConfigError("c".into()).message(),
        "Config error: c"
    );
    assert_eq!(
        StorageError::RetryLimitExceeded("r".into()).message(),
        "Retry limit exceeded: r"
    );
    assert_eq!(
        StorageError::ReadFailed("r".into()).message(),
        "Read failed: r"
    );
}

#[test]
fn test_status_categories() {
    assert_eq!(
        status_kind_of(&ProcessingError::ValidationError("v".into())),
        StatusKind::InvalidArgument
    );
    assert_eq!(
        status_kind_of(&ProcessingError::ProcessingFailed("p".into())),
        StatusKind::Internal
    );
    assert_eq!(
        status_kind_of(&ProcessingError::StorageError("s".into())),
        StatusKind::Internal
    );
    assert_eq!(
        status_kind_of(&ProcessingError::RateLimitExceeded("r".into())),
        StatusKind::ResourceExhausted
    );
    assert_eq!(
        status_kind_of(&ProcessingError::NotFound("n".into())),
        StatusKind::NotFound
    );
    assert_eq!(
        status_kind_of(&ProcessingError::ShutdownError("d".into())),
        StatusKind::Internal
    );
}
