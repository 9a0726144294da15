[package]
name = "csv_partial_cache"
version = "0.1.0"
edition = "2021"
publish = false

[dependencies]
csv = "=1.4.0"
csv-line = "=0.3.0"
serde = { version = "=1.0.229", features = ["derive"] }
serde_json = "=1.0.151"
tokio = { version = "1", features = ["fs", "io-util"] }
