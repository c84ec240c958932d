[package]
name = "llmtrace"
version = "0.1.0"
edition = "2021"
publish = false

[dependencies]
uuid = { version = "*", features = ["v4"] }
chrono = "*"
axum = "*"
reqwest = { version = "*", default-features = false, features = ["json"] }
serde = { version = "*", features = ["derive"] }
serde_json = "*"
tokio = { version = "*", features = ["rt-multi-thread", "macros", "signal", "net"] }
tracing = "*"
tracing-subscriber = "*"
clap = { version = "*", features = ["derive"] }
