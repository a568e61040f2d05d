[package]
name = "pubcal"
version = "0.1.0"
edition = "2021"
publish = false

[dependencies]
anyhow = "1"
env_logger = "*"
hyper = { version = "0.14", features = ["full"] }
log = "0.4"
serde = { version = "1", features = ["derive"] }
tokio = { version = "1", features = ["full"] }
toml = "*"
uuid = { version = "1", features = ["serde"] }
