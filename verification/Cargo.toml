[package]
name = "tron_core"
version = "0.1.0"
edition = "2021"
publish = false

[dependencies]
rand = "*"
chrono = "*"
serde = { version = "*", features = ["derive"] }
serde_json = "*"
tokio = { version = "*", features = ["rt-multi-thread", "macros", "net", "io-util", "time", "sync"] }
clap = { version = "*", features = ["derive"] }
tracing = "*"
tracing-subscriber = "*"
