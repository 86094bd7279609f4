[package]
name = "compass"
version = "0.5.0"
edition = "2021"
publish = false

[dependencies]
axum = "0.8"
bytes = "1"
candle-core = "0.8"
candle-nn = "0.8"
candle-transformers = "0.8"
chrono = { version = "0.4", features = ["serde"] }
half = "2"
object_store = { version = "0.12", features = ["fs"] }
redb = "2"
safetensors = "0.4"
serde = { version = "1", features = ["derive"] }
serde_json = "1"
thiserror = "2"
tokenizers = { version = "0.21", default-features = false, features = ["fancy-regex"] }
tokio = { version = "1", features = ["full"] }
tower = { version = "0.5", features = ["limit"] }
tower-http = { version = "0.6", features = ["cors"] }
tracing = "0.1"
tracing-subscriber = "0.3"
uuid = { version = "1", features = ["v4"] }
