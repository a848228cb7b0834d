[package]
name = "vampire"
version = "0.1.0"
edition = "2021"
publish = false

[dependencies]
axum = "=0.8.9"
bytes = "=1.12.1"
hex = "=0.4.3"
regex = "=1.13.1"
reqwest = { version = "=0.12.28", default-features = false, features = ["http2", "rustls-tls"] }
serde = { version = "=1.0.229", features = ["derive"] }
serde_json = { version = "=1.0.154", features = ["raw_value"] }
sha2 = "=0.10.9"
tokio = { version = "=1.54.1", features = ["full"] }
tokio-util = { version = "=0.7.20", features = ["io"] }
url = "=2.5.8"
