[package]
name = "media_board"
version = "0.1.0"
edition = "2021"
publish = false

[dependencies]
anyhow = "*"
axum = { version = "*", features = ["multipart"] }
futures = "*"
serde = { version = "*", features = ["derive"] }
tokio = { version = "*", features = ["fs", "io-util", "macros", "net", "rt-multi-thread", "sync"] }
tokio-util = { version = "*", features = ["io"] }
tower-http = { version = "*", features = ["fs", "trace"] }
tracing-subscriber = { version = "*", features = ["env-filter", "fmt"] }
