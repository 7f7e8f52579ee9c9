[package]
name = "claude_session_store"
version = "0.1.0"
edition = "2021"
publish = false

[dependencies]
serde = { version = "=1.0.229", features = ["derive"] }
serde_json = "=1.0.154"
uuid = { version = "=1.29.0", features = ["v4"] }
dirs = "=5.0.1"
tokio = { version = "=1.54.1", features = ["rt", "rt-multi-thread", "time", "sync", "macros"] }
tracing = "=0.1.44"
tempfile = "=3.27.0"
dashmap = "6"
