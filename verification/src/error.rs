//! Error taxonomy of the pipeline: processing, storage and configuration
//! failures, each carrying a human-readable detail string, and the mapping
//! of processing errors onto the RPC status categories that the ingestion
//! boundary reports.
use vstd::prelude::*;

verus! {

/// Errors that can occur during message processing.
#[derive(Debug)]
pub enum ProcessingError {
    /// Error during message validation.
    ValidationError(String),
    /// Error during message processing.
    ProcessingFailed(String),
    /// Error during storage operations.
    StorageError(String),
    /// Rate limit exceeded for processing.
    RateLimitExceeded(String),
    /// Requested resource not found.
    NotFound(String),
    /// Error during the shutdown drain sequence.
    ShutdownError(String),
}

/// Errors that can occur during storage operations.
#[derive(Debug)]
pub enum StorageError {
    /// Error during write operation.
    WriteFailed(String),
    /// Error connecting to storage.
    ConnectionError(String),
    /// Error during batch write operation.
    BatchWriteFailed(String),
    /// Error in storage configuration.
    ConfigError(String),
    /// Maximum retry attempts exceeded.
    RetryLimitExceeded(String),
    /// Error during read operation.
    ReadFailed(String),
}

/// Errors that can occur during configuration.
#[derive(Debug)]
pub enum ConfigError {
    /// Invalid configuration value.
    InvalidValue(String),
    /// Missing required configuration field.
    MissingField(String),
    /// Invalid configuration format.
    InvalidFormat(String),
}

/// The display text of a processing error: a fixed label for the variant,
/// followed by the carried detail.
pub open spec fn processing_error_text(e: ProcessingError) -> Seq<char> {
    match e {
        ProcessingError::ValidationError(m) => "Validation error: "@ + m@,
        ProcessingError::ProcessingFailed(m) => "Processing failed: "@ + m@,
        ProcessingError::StorageError(m) => "Storage error: "@ + m@,
        ProcessingError::RateLimitExceeded(m) => "Rate limit exceeded: "@ + m@,
        ProcessingError::NotFound(m) => "Resource not found: "@ + m@,
        ProcessingError::ShutdownError(m) => "Shutdown error: "@ + m@,
    }
}

/// The display text of a storage error.
pub open spec fn storage_error_text(e: StorageError) -> Seq<char> {
    match e {
        StorageError::WriteFailed(m) => "Write failed: "@ + m@,
        StorageError::ConnectionError(m) => "Connection failed: "@ + m@,
        StorageError::BatchWriteFailed(m) => "Batch write failed: "@ + m@,
        StorageError::ConfigError(m) => "Config error: "@ + m@,
        StorageError::RetryLimitExceeded(m) => "Retry limit exceeded: "@ + m@,
        StorageError::ReadFailed(m) => "Read failed: "@ + m@,
    }
}

/// The display text of a configuration error.
pub open spec fn config_error_text(e: ConfigError) -> Seq<char> {
    match e {
        ConfigError::InvalidValue(m) => "Invalid value: "@ + m@,
        ConfigError::MissingField(m) => "Missing field: "@ + m@,
        ConfigError::InvalidFormat(m) => "Invalid format: "@ + m@,
    }
}

impl ProcessingError {
    /// Renders the error as its display text.
    pub fn message(&self) -> (r: String)
        ensures
            r@ == processing_error_text(*self),
    {
        match self {
            ProcessingError::ValidationError(m) => {
                let mut s = "Validation error: ".to_owned();
                s.append(m.as_str());
                s
            },
            ProcessingError::ProcessingFailed(m) => {
                let mut s = "Processing failed: ".to_owned();
                s.append(m.as_str());
                s
            },
            ProcessingError::StorageError(m) => {
                let mut s = "Storage error: ".to_owned();
                s.append(m.as_str());
                s
            },
            ProcessingError::RateLimitExceeded(m) => {
                let mut s = "Rate limit exceeded: ".to_owned();
                s.append(m.as_str());
                s
            },
            ProcessingError::NotFound(m) => {
                let mut s = "Resource not found: ".to_owned();
                s.append(m.as_str());
                s
            },
            ProcessingError::ShutdownError(m) => {
                let mut s = "Shutdown error: ".to_owned();
                s.append(m.as_str());
                s
            },
        }
    }
}

impl StorageError {
    /// Renders the error as its display text.
    pub fn message(&self) -> (r: String)
        ensures
            r@ == storage_error_text(*self),
    {
        match self {
            StorageError::WriteFailed(m) => {
                let mut s = "Write failed: ".to_owned();
                s.append(m.as_str());
                s
            },
            StorageError::ConnectionError(m) => {
                let mut s = "Connection failed: ".to_owned();
                s.append(m.as_str());
                s
            },
            StorageError::BatchWriteFailed(m) => {
                let mut s = "Batch write failed: ".to_owned();
                s.append(m.as_str());
                s
            },
            StorageError::ConfigError(m) => {
                let mut s = "Config error: ".to_owned();
                s.append(m.as_str());
                s
            },
            StorageError::RetryLimitExceeded(m) => {
                let mut s = "Retry limit exceeded: ".to_owned();
                s.append(m.as_str());
                s
            },
            StorageError::ReadFailed(m) => {
                let mut s = "Read failed: ".to_owned();
                s.append(m.as_str());
                s
            },
        }
    }
}

impl ConfigError {
    /// Renders the error as its display text.
    pub fn message(&self) -> (r: String)
        ensures
            r@ == config_error_text(*self),
    {
        match self {
            ConfigError::InvalidValue(m) => {
                let mut s = "Invalid value: ".to_owned();
                s.append(m.as_str());
                s
            },
            ConfigError::MissingField(m) => {
                let mut s = "Missing field: ".to_owned();
                s.append(m.as_str());
                s
            },
            ConfigError::InvalidFormat(m) => {
                let mut s = "Invalid format: ".to_owned();
                s.append(m.as_str());
                s
            },
        }
    }
}

/// What a storage error becomes when it surfaces as a processing error:
/// a `StorageError` variant whose detail is the storage error's own
/// display text, so the distinguishing detail is preserved.
pub open spec fn is_storage_conversion(e: StorageError, r: ProcessingError) -> bool {
    &&& r is StorageError
    &&& r->StorageError_0@ == storage_error_text(e)
}

impl ProcessingError {
    /// Converts a storage error to a processing error, keeping the
    /// storage error's display text as the detail.
    pub fn from_storage(error: StorageError) -> (r: Self)
        ensures
            is_storage_conversion(error, r),
    {
        let text = error.message();
        ProcessingError::StorageError(text)
    }
}

impl From<StorageError> for ProcessingError {
    /// Converts a storage error to a processing error; the exact text is
    /// stated by `ProcessingError::from_storage`, to which this delegates.
    fn from(error: StorageError) -> (r: Self) {
        ProcessingError::from_storage(error)
    }
}

impl vstd::std_specs::convert::FromSpecImpl<StorageError> for ProcessingError {
    open spec fn obeys_from_spec() -> bool {
        // The carried detail is a `String`, which a spec function cannot
        // construct; the conversion is pinned down at the view level by
        // `from_storage` instead of by an exact `from_spec` equation.
        false
    }

    open spec fn from_spec(e: StorageError) -> ProcessingError {
        arbitrary()
    }
}

/// The standard status categories that the RPC boundary reports.
#[derive(Debug, PartialEq, Eq, Structural, Clone, Copy)]
pub enum StatusKind {
    /// The request itself was malformed.
    InvalidArgument,
    /// An internal processing or storage failure.
    Internal,
    /// A rate or resource limit was hit.
    ResourceExhausted,
    /// The requested data does not exist.
    NotFound,
}

/// The status category owed to each processing error: validation maps to
/// invalid-argument, rate and resource conditions to resource-exhausted,
/// missing data to not-found, and everything else to internal.
pub open spec fn status_kind_of_spec(e: ProcessingError) -> StatusKind {
    match e {
        ProcessingError::ValidationError(_) => StatusKind::InvalidArgument,
        ProcessingError::ProcessingFailed(_) => StatusKind::Internal,
        ProcessingError::StorageError(_) => StatusKind::Internal,
        ProcessingError::RateLimitExceeded(_) => StatusKind::ResourceExhausted,
        ProcessingError::NotFound(_) => StatusKind::NotFound,
        ProcessingError::ShutdownError(_) => StatusKind::Internal,
    }
}

/// Classifies a processing error into the status category the RPC
/// boundary reports for it.
pub fn status_kind_of(e: &ProcessingError) -> (r: StatusKind)
    ensures
        r == status_kind_of_spec(*e),
{
    match e {
        ProcessingError::ValidationError(_) => StatusKind::InvalidArgument,
        ProcessingError::ProcessingFailed(_) => StatusKind::Internal,
        ProcessingError::StorageError(_) => StatusKind::Internal,
        ProcessingError::RateLimitExceeded(_) => StatusKind::ResourceExhausted,
        ProcessingError::NotFound(_) => StatusKind::NotFound,
        ProcessingError::ShutdownError(_) => StatusKind::Internal,
    }
}

} // verus!
