[package]
name = "metrics_cloudwatch_embedded"
version = "0.1.0"
edition = "2021"
publish = false

[dependencies]
serde_json = "1"
serde = { version = "1", features = ["derive"] }
metrics = "0.24"
tracing = "0.1"
tower = "0.5"
pin-project = "1"
futures = "0.3"
bytes = "1"
lambda_runtime = "0.13"
lambda_http = "0.13"
