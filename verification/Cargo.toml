[package]
name = "raftcore"
version = "0.1.0"
edition = "2021"
publish = false

[dependencies]
anyerror = "0.1"
serde = { version = "1", features = ["derive"] }
serde_json = "1"
tokio = { version = "1", default-features = false, features = ["sync", "time", "rt", "macros"] }
tracing = "0.1"
tracing-futures = "0.2"
