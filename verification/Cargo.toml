[package]
name = "driftwood"
version = "0.1.0"
edition = "2021"
publish = false

[dependencies]
fxhash = "0.2"
serde = { version = "1", features = ["derive"] }
bincode = "1"
sled = "0.34"
tokio = { version = "1", features = ["full"] }
tracing = "0.1"
tracing-subscriber = { version = "0.3", features = ["env-filter"] }
clap = { version = "4", features = ["derive"] }
anyhow = "1"
