[package]
name = "tradingview"
version = "0.1.0"
edition = "2021"
publish = false

[dependencies]
anyhow = "=1.0.104"
async-stream = "=0.3.6"
chrono = { version = "=0.4.45", features = ["serde"] }
either = "=1.19.0"
futures = "=0.3.34"
log = "=0.4.35"
rand = "=0.9.5"
regex = "1"
reqwest = { version = "=0.12.28", features = ["json", "multipart", "cookies"] }
serde = { version = "=1.0.229", features = ["derive"] }
serde_json = "=1.0.154"
thiserror = "=2.0.21"
tokio = { version = "=1.54.1", features = ["full"] }
tokio-tungstenite = { version = "=0.24.0", features = ["native-tls"] }
typed-builder = "=0.20.1"
