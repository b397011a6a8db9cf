[package]
name = "navetted"
version = "0.1.0"
edition = "2021"
publish = false

[dependencies]
anyhow = "1"
axum = { version = "0.8", features = ["ws"] }
calloop = "=0.14.5"
clap = { version = "4", features = ["derive", "env"] }
freedesktop-desktop-entry = { version = "=0.8.4", default-features = false }
futures-util = "0.3"
nix = { version = "=0.31.3", features = ["fs", "signal", "process"] }
serde = { version = "1", features = ["derive"] }
serde_json = "=1.0.154"
tempfile = "3"
tokio = { version = "1", features = ["full"] }
tracing = "0.1"
tracing-subscriber = { version = "0.3", features = ["env-filter"] }
