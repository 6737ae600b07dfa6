[package]
name = "codex_context_lock"
version = "0.1.0"
edition = "2021"
publish = false

[dependencies]
serde = { version = "1", features = ["derive"] }
serde_json = "1"
anyhow = "1"
clap = { version = "4", features = ["derive"] }
tokio = { version = "1", features = ["fs", "rt", "macros"] }
tracing = "0.1"
rmcp = { version = "*", default-features = false }
