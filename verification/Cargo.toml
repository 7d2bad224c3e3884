[package]
name = "racfs"
version = "0.1.0"
edition = "2021"
publish = false

[dependencies]
async-trait = "=0.1.92"
axum = "=0.8.9"
base64 = "=0.22.1"
bytes = "=1.12.1"
chrono = "=0.4.45"
dashmap = "6"
clap = { version = "=4.6.7", features = ["derive"] }
foyer = { version = "=0.22.6", default-features = false, features = ["runtime-tokio"] }
fuser = { version = "=0.18.0", default-features = false, features = ["experimental"] }
indicatif = "=0.17.11"
parking_lot = "=0.12.5"
reqwest = { version = "=0.12.28", default-features = false, features = ["json", "blocking", "rustls-tls"] }
rusqlite = { version = "=0.41.1", features = ["bundled"] }
serde = { version = "=1.0.229", features = ["derive"] }
serde_json = "=1.0.154"
snafu = "=0.8.9"
tokio = { version = "=1.54.1", features = ["full"] }
tracing = "=0.1.44"
tracing-subscriber = "=0.3.23"
utoipa = "=5.5.0"
uuid = { version = "=1.29.0", features = ["v7", "serde"] }
zstd = "=0.13.4"
