[package]
name = "hl_orderbook"
version = "0.1.0"
edition = "2021"
publish = false

[dependencies]
alloy = { version = "=1.8.3", default-features = false }
anyhow = "=1.0.104"
axum = { version = "=0.8.9", features = ["ws"] }
chrono = { version = "=0.4.45", default-features = false, features = ["clock", "std"] }
clap = { version = "=4.6.7", features = ["derive"] }
dirs = "=5.0.1"
env_logger = "=0.11.11"
futures-util = "=0.3.34"
libc = "=0.2.191"
log = "=0.4.35"
reqwest = { version = "=0.12.28", default-features = false, features = ["json", "stream", "rustls-tls"] }
rmp = "=0.8.15"
rocksdb = { version = "=0.25.0", default-features = false, features = ["lz4"] }
rusqlite = { version = "=0.32.1", features = ["bundled"] }
serde = { version = "=1.0.229", features = ["derive"] }
serde_json = "=1.0.154"
sonic-rs = "=0.3.17"
tokio = { version = "=1.54.1", features = ["full"] }
tokio-tungstenite = { version = "=0.26.2", features = ["rustls-tls-webpki-roots"] }
ureq = { version = "=2.12.1", features = ["json"] }
yawc = { version = "=0.2.7", features = ["axum"] }
