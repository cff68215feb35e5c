[package]
name = "codex_toolkit"
version = "0.3.2"
edition = "2021"
publish = false

[dependencies]
anyhow = "=1.0.104"
dunce = "=1.0.5"
notify = "=8.2.1"
ratatui = { version = "=0.29.0", default-features = false }
rmcp = { version = "=0.15.0", default-features = false, features = ["base64", "server"] }
serde = { version = "=1.0.229", features = ["derive"] }
serde_json = "=1.0.154"
shlex = "=1.3.0"
tempfile = "=3.27.0"
tokio = { version = "=1.54.1", features = ["rt", "rt-multi-thread", "sync", "time", "macros", "fs"] }
toml = "=0.9.12"
tracing = "=0.1.44"
url = "=2.5.8"
which = "=8.0.6"
