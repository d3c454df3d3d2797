[package]
name = "openclaw"
version = "0.1.0"
edition = "2021"
publish = false

[dependencies]
petgraph = "0.6"
regex = "1"
serde = { version = "1", features = ["derive"] }
toml = "0.8"
which = "6"
anyhow = "1"
thiserror = "1"
notify = "6"
tokio = { version = "1", features = ["sync", "time", "rt", "macros", "process", "io-util"] }
reqwest = { version = "0.12", default-features = false }

[dev-dependencies]
serde_json = "1"
