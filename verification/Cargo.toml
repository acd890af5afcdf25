[package]
name = "ks_notes"
version = "0.1.0"
edition = "2021"
publish = false

[dependencies]
argon2 = "0.5"
askama = "*"
axum = { version = "0.8", features = ["multipart"] }
clap = { version = "4", features = ["derive", "env"] }
comrak = "*"
data-encoding = "2"
deadpool-sqlite = { version = "*", features = ["rt_tokio_1"] }
rand = "0.9"
rusqlite = { version = "*", features = ["bundled"] }
serde = { version = "1", features = ["derive"] }
serde_json = "1"
sha2 = "0.10"
time = { version = "0.3", features = ["formatting", "macros"] }
tokio = { version = "1", features = ["full"] }
tower-http = { version = "*", features = ["limit", "trace"] }
tracing = "0.1"
tracing-subscriber = { version = "0.3", features = ["env-filter"] }
