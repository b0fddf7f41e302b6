[package]
name = "katana_messaging"
version = "0.1.0"
edition = "2021"
publish = false

[dependencies]
serde_json = "1"
alloy-primitives = { version = "*", features = ["serde"] }
tokio = { version = "1", features = ["time", "sync", "rt", "macros"] }
futures = "0.3"
tracing = "0.1"
anyhow = "1"
