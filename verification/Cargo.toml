[package]
name = "table_handlers"
version = "0.1.0"
edition = "2021"
publish = false

[dependencies]
aws-config = "0.8"
aws-sdk-dynamodb = "0.8"
lambda_runtime = "0.5"
serde = { version = "1", features = ["derive"] }
serde_json = "1"
tokio = { version = "1", features = ["macros", "rt-multi-thread"] }
tracing = "0.1"
tracing-subscriber = "0.3"
