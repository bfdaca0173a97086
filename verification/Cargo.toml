[package]
name = "aws-ses-relay"
version = "0.1.1"
edition = "2021"
publish = false

[dependencies]
serde_json = "1"
serde = { version = "1", features = ["derive"] }
aws-config = "1"
aws-sdk-s3 = "1"
aws-sdk-sesv2 = "1"
lambda_runtime = "1"
thiserror = "2"
tokio = { version = "1", features = ["macros", "rt"] }
tracing = "0.1"
tracing-subscriber = { version = "0.3", features = ["env-filter", "json"] }
