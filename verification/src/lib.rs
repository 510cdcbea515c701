//! A miniature trace-collector pipeline: wire-format span messages are
//! batched, converted to an internal span representation, and persisted
//! through an abstract storage port, while aggregate health is reported.
pub mod codec;
pub mod config;
pub mod convert;
pub mod engine;
pub mod error;
pub mod health;
pub mod hexstr;
pub mod memory;
pub mod reader;
pub mod span;
pub mod storage;
pub mod wire;

pub use config::{Config, ProcessingConfig};
pub use engine::EngineCore;
pub use error::{ConfigError, ProcessingError, StorageError};
pub use memory::MemStorageWriter;
pub use reader::SpanReader;
