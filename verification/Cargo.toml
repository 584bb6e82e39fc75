[package]
name = "oracle_etl"
version = "0.1.0"
edition = "2021"
publish = false

[dependencies]
serde = { version = "1", features = ["derive"] }
serde_json = "1"
toml = "*"
clap = { version = "4", features = ["derive"] }
tokio = { version = "1", features = ["rt-multi-thread", "macros", "time"] }
async-channel = "2"
reqwest = { version = "*", default-features = false, features = ["json", "rustls-tls"] }
anyhow = "1"
log = "0.4"
env_logger = "*"
oracle-rs = "*"
oracle = "*"
arrow = { version = "*", default-features = false }
parquet = { version = "*", default-features = false, features = ["arrow", "snap"] }
core_affinity = "*"
