[package]
name = "rustpilot"
version = "0.1.0"
edition = "2021"
publish = false

[dependencies]
serde = { version = "1", features = ["derive"] }
serde_json = "1"
uuid = { version = "1", features = ["v4"] }
toml = "0.8"
tokio = { version = "1", features = ["rt", "rt-multi-thread", "macros", "time", "sync", "fs", "process", "io-util"] }
tokio-util = "0.7"
futures-util = "0.3"
reqwest = { version = "0.12", default-features = false, features = ["json", "stream"] }
tracing = "0.1"
