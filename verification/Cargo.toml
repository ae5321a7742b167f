[package]
name = "tc-otel"
version = "0.1.0"
edition = "2021"
publish = false

[dependencies]
ads = "0.4"
anyhow = "1"
async-trait = "0.1"
chrono = "0.4"
parking_lot = "0.12"
rumqttc = "0.24"
serde = { version = "1", features = ["derive"] }
serde_json = "1"
thiserror = "1"
tokio = { version = "1", features = ["full"] }
tracing = "0.1"
