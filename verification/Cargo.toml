[package]
name = "maroon"
version = "0.1.0"
edition = "2021"
publish = false

[dependencies]
hyper = "=1.12.0"
petgraph = "=0.6.5"
serde = { version = "=1.0.229", features = ["derive"] }
serde_json = "=1.0.154"
tokio = { version = "=1.54.1", features = ["full"] }
axum = { version = "=0.8.9", features = ["ws"] }
clap = { version = "=4.6.7", features = ["derive"] }
tokio-tungstenite = "=0.29.0"
redb = "2"
redis = { version = "0.27", features = ["tokio-comp"] }
chrono = "0.4"
futures = "0.3"
anyhow = "1"
url = "2"
maxminddb = "0.24"
trust-dns-resolver = "0.23"
