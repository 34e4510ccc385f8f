[package]
name = "fono"
version = "0.1.0"
edition = "2021"
publish = false

[dependencies]
anyhow = "1"
async-trait = "0.1"
serde = { version = "1", features = ["derive"] }
serde_json = { version = "1", features = ["float_roundtrip"] }
tokio = { version = "1", features = ["rt", "sync", "time"] }
toml = "0.8"
tracing = "0.1"
whatlang = "0.16"
