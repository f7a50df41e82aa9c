[package]
name = "sfctl_ai"
version = "0.1.0"
edition = "2021"
publish = false

[dependencies]
tokio = { version = "*", features = ["rt-multi-thread", "macros", "process", "io-util", "io-std", "signal", "sync", "time"] }
tokio-util = "*"
futures = "*"
genai = "*"
serde = { version = "*", features = ["derive"] }
serde_json = "*"
