[package]
name = "autopilot"
version = "0.1.0"
edition = "2021"
publish = false

[dependencies]
primitive-types = "0.12"
rand = "0.8"
anyhow = "1"
thiserror = "1"
tracing = "0.1"
chrono = { version = "0.4", default-features = false, features = ["clock"] }
futures = "0.3"
tokio = { version = "1", features = ["sync", "time", "rt", "macros"] }
prometheus = { version = "0.13", default-features = false }
serde = { version = "1", features = ["derive"] }
serde_json = "1"
