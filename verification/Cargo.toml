[package]
name = "chartcore"
version = "0.1.0"
edition = "2021"
publish = false

[dependencies]
chrono = { version = "=0.4.45", features = ["serde"] }
chrono-tz = "=0.10.4"
serde = { version = "=1.0.229", features = ["derive"] }
serde_json = "=1.0.151"
csv = "=1.4.0"
anyhow = "=1.0.104"
reqwest = { version = "=0.12.28", default-features = false, features = ["json"] }
tokio = { version = "=1.53.2", features = ["rt-multi-thread", "macros", "sync"] }
