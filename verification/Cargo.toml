[package]
name = "coda_agent"
version = "0.1.0"
edition = "2021"
publish = false

[dependencies]
futures = "0.3"
jiff = { version = "0.2", features = ["serde"] }
serde = { version = "1", features = ["derive"] }
serde_json = "1"
tokio = { version = "1", features = ["macros", "rt", "rt-multi-thread", "sync", "time"] }
tokio-util = "0.7"
tracing = "0.1"
uuid = { version = "1", features = ["serde", "v4", "v5"] }
