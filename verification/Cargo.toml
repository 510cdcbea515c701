[package]
name = "storage_engine"
version = "0.1.0"
edition = "2021"
publish = false

[dependencies]
hex = "*"
tokio = { version = "*", features = ["full"] }
axum = "*"
serde = { version = "*", features = ["derive"] }
serde_json = "*"
serde_yaml = "*"
aws-config = { version = "*", features = ["behavior-version-latest"] }
aws-sdk-s3 = "*"
async-trait = "*"
tonic = "*"
thiserror = "*"
tracing = "*"
tracing-subscriber = { version = "*", features = ["env-filter"] }
