[package]
name = "vault_ingest"
version = "0.1.0"
edition = "2021"
publish = false

[dependencies]
md5 = "*"
mime_guess = "*"
anyhow = "*"
chrono = "*"
rusqlite = { version = "*", features = ["bundled"] }
tokio = { version = "*", features = ["rt-multi-thread", "macros", "signal", "time", "fs", "sync"] }
tracing = "*"
tracing-subscriber = "*"
walkdir = "*"
