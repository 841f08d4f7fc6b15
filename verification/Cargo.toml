[package]
name = "xai_grok_pager"
version = "0.1.0"
edition = "2021"
publish = false

[dependencies]
ratatui = { version = "=0.30.2", default-features = false }
serde = { version = "=1.0.229", features = ["derive"] }
serde_json = "=1.0.154"
uuid = { version = "=1.29.0", features = ["v4"] }
chrono = { version = "=0.4.45", features = ["serde"] }
agent-client-protocol = "=5.0.0"
