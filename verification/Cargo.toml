[package]
name = "payment_switch"
version = "0.1.0"
edition = "2021"
publish = false

[dependencies]
arc-swap = "1"
axum = { version = "0.7", features = ["ws"] }
bincode = "1"
bytes = "1"
chrono = "0.4"
crossbeam = "0.8"
csv = "1"
dashmap = "5"
futures = "0.3"
hex = "0.4"
memmap2 = "0.9"
metrics = "0.21"
metrics-exporter-prometheus = { version = "0.12", default-features = false, features = ["http-listener"] }
num_cpus = "1"
prost = "0.12"
rand = "0.8"
reqwest = { version = "0.11", default-features = false, features = ["json"] }
rusqlite = { version = "0.31", features = ["bundled"] }
serde = { version = "1", features = ["derive"] }
serde_json = "1"
sled = "0.34"
thiserror = "1"
tokio = { version = "1", features = ["full"] }
tokio-cron-scheduler = "0.10"
tokio-util = { version = "0.7", features = ["codec"] }
tower-http = { version = "0.5", features = ["cors", "fs"] }
tracing = "0.1"
tracing-subscriber = { version = "0.3", features = ["env-filter"] }
uuid = { version = "1", features = ["v4"] }
