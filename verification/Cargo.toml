[package]
name = "loop_engine"
version = "0.1.0"
edition = "2021"
publish = false

[dependencies]
anyhow = "1"
async-trait = "0.1"
bytes = "1"
chrono = { version = "=0.4.45", features = ["serde"] }
clap = { version = "4", features = ["derive"] }
daemonize = "0.5"
dashmap = "=6.2.1"
fd-lock = "4"
futures = "0.3"
hnsw_rs = "=0.3.5"
libc = "0.2"
notify = "=8.2.1"
parking_lot = "0.12"
regex = "=1.13.1"
serde = { version = "1", features = ["derive"] }
serde_json = "=1.0.154"
serde_yml = "=0.0.12"
tempfile = "3"
thiserror = "2"
tokio = { version = "1", features = ["full"] }
tokio-stream = "0.1"
tokio-util = "0.7"
tracing = "0.1"
tracing-subscriber = { version = "0.3", features = ["env-filter", "json"] }
