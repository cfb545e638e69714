[package]
name = "bank_parser"
version = "0.1.0"
edition = "2021"
publish = false

[dependencies]
rand = "0.9"
anyhow = "1"
bincode = { version = "2", features = ["serde"] }
clap = { version = "4", features = ["derive"] }
crossbeam = "0.8"
csv = "1"
env_logger = "0.11"
log = "0.4"
serde = { version = "1", features = ["derive"] }
serde_json = "1"
thiserror = "2"
tracing = "0.1"
tracing-subscriber = "0.3"
