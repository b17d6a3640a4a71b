[package]
name = "bridge_pool"
version = "0.1.0"
edition = "2021"
publish = false

[dependencies]
arc-swap = "1"
dashmap = "6"
log = "0.4"
serde = { version = "1", features = ["derive"] }
serde_json = "1"
tokio = { version = "1", features = ["sync", "time", "rt", "macros"] }
tower-lsp-server = "*"
ulid = "1"
url = "2"
