//! Configuration of the pipeline, validated once at startup: batching
//! limits, storage target, retry policy and metrics settings. Loading
//! from a file or the environment happens outside the library; this
//! module owns the shapes and the validation rules.
use vstd::prelude::*;

use crate::error::ConfigError;

verus! {

/// Main configuration structure for the storage engine.
#[derive(Debug, Clone)]
pub struct Config {
    /// Server-related configuration.
    pub server: ServerConfig,
    /// Storage backend configuration.
    pub storage: StorageConfig,
    /// Message processing configuration.
    pub processing: ProcessingConfig,
    /// Retry policy configuration.
    pub retry: RetryConfig,
    /// Metrics collection configuration.
    pub metrics: MetricsConfig,
}

/// Server configuration options.
#[derive(Debug, Clone)]
pub struct ServerConfig {
    /// Server host address.
    pub host: String,
    /// Server port number.
    pub port: u16,
    /// Maximum concurrent connections.
    pub max_connections: usize,
}

/// Storage backend configuration.
#[derive(Debug, Clone)]
pub struct StorageConfig {
    /// Storage bucket name.
    pub bucket: String,
    /// Key prefix for stored objects.
    pub prefix: String,
    /// Storage region (for cloud storage).
    pub region: String,
}

/// Message processing configuration.
#[derive(Debug, Clone, Copy)]
pub struct ProcessingConfig {
    /// Number of messages to process in a batch.
    pub batch_size: usize,
    /// Maximum time to wait before processing a partial batch.
    pub batch_timeout_ms: u64,
}

/// Retry policy configuration.
#[derive(Debug, Clone, Copy)]
pub struct RetryConfig {
    /// Maximum number of retry attempts.
    pub max_retries: u32,
    /// Initial backoff duration in milliseconds.
    pub initial_backoff_ms: u64,
    /// Maximum backoff duration in milliseconds.
    pub max_backoff_ms: u64,
}

/// Metrics collection configuration.
#[derive(Debug, Clone, Copy)]
pub struct MetricsConfig {
    /// Whether metrics collection is enabled.
    pub enabled: bool,
    /// Interval for pushing metrics in milliseconds.
    pub push_interval_ms: u64,
}

/// The validation rules: a configuration is acceptable exactly when the
/// batch size, the batch timeout and the retry count are positive and
/// the backoff window is not inverted.
pub open spec fn config_valid(c: Config) -> bool {
    &&& c.processing.batch_size > 0
    &&& c.processing.batch_timeout_ms > 0
    &&& c.retry.max_retries > 0
    &&& c.retry.max_backoff_ms >= c.retry.initial_backoff_ms
}

impl Config {
    /// Validates the configuration values, reporting the first rule that
    /// fails; succeeds exactly on valid configurations.
    pub fn validate(&self) -> (r: Result<(), ConfigError>)
        ensures
            r is Ok <==> config_valid(*self),
            self.processing.batch_size == 0 ==> (r matches Err(e)
                && e is InvalidValue
                && e->InvalidValue_0@ == "batch_size must be > 0"@),
            self.processing.batch_size > 0 && self.processing.batch_timeout_ms == 0 ==> (r matches
            Err(e) && e is InvalidValue && e->InvalidValue_0@ == "batch_timeout_ms must be > 0"@),
            self.processing.batch_size > 0 && self.processing.batch_timeout_ms > 0
                && self.retry.max_retries == 0 ==> (r matches Err(e)
                && e is InvalidValue
                && e->InvalidValue_0@ == "max_retries must be > 0"@),
            self.processing.batch_size > 0 && self.processing.batch_timeout_ms > 0
                && self.retry.max_retries > 0
                && self.retry.max_backoff_ms < self.retry.initial_backoff_ms ==> (r matches Err(e)
                && e is InvalidValue
                && e->InvalidValue_0@ == "max_backoff_ms must be >= initial_backoff_ms"@),
    {
        if self.processing.batch_size == 0 {
            return Err(ConfigError::InvalidValue("batch_size must be > 0".to_owned()));
        }
        if self.processing.batch_timeout_ms == 0 {
            return Err(ConfigError::InvalidValue("batch_timeout_ms must be > 0".to_owned()));
        }
        if self.retry.max_retries == 0 {
            return Err(ConfigError::InvalidValue("max_retries must be > 0".to_owned()));
        }
        if self.retry.max_backoff_ms < self.retry.initial_backoff_ms {
            return Err(
                ConfigError::InvalidValue("max_backoff_ms must be >= initial_backoff_ms".to_owned()),
            );
        }
        Ok(())
    }

    /// Assembles a configuration from its parts and validates it;
    /// returns the configuration exactly when it is valid.
    pub fn new(
        server: ServerConfig,
        storage: StorageConfig,
        processing: ProcessingConfig,
        retry: RetryConfig,
        metrics: MetricsConfig,
    ) -> (r: Result<Self, ConfigError>)
        ensures
            r matches Ok(c) ==> config_valid(c) && c.server == server && c.storage == storage
                && c.processing == processing && c.retry == retry && c.metrics == metrics,
            r is Err ==> !(processing.batch_size > 0 && processing.batch_timeout_ms > 0
                && retry.max_retries > 0 && retry.max_backoff_ms >= retry.initial_backoff_ms),
    {
        let config = Self { server, storage, processing, retry, metrics };
        let valid = config.validate();
        match valid {
            Ok(_) => Ok(config),
            Err(e) => Err(e),
        }
    }
}

impl Default for ProcessingConfig {
    /// The default batching policy: batches of 100, flushed after at
    /// most five seconds.
    fn default() -> (r: Self)
        ensures
            r.batch_size == 100,
            r.batch_timeout_ms == 5000,
    {
        Self { batch_size: 100, batch_timeout_ms: 5000 }
    }
}

impl Default for RetryConfig {
    /// The default retry policy: three attempts, backing off from 100 ms
    /// up to one second.
    fn default() -> (r: Self)
        ensures
            r.max_retries == 3,
            r.initial_backoff_ms == 100,
            r.max_backoff_ms == 1000,
    {
        Self { max_retries: 3, initial_backoff_ms: 100, max_backoff_ms: 1000 }
    }
}

impl Default for MetricsConfig {
    /// The default metrics policy: enabled, pushed every ten seconds.
    fn default() -> (r: Self)
        ensures
            r.enabled,
            r.push_interval_ms == 10000,
    {
        Self { enabled: true, push_interval_ms: 10000 }
    }
}

} // verus!
