[package]
name = "kafka_broker"
version = "0.1.0"
edition = "2021"
publish = false

[dependencies]
bytes = "1"
tokio = { version = "1", features = ["full"] }
anyhow = "1"
thiserror = "1"
