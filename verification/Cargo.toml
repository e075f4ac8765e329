[package]
name = "turbo_search"
version = "0.1.0"
edition = "2021"
publish = false

[dependencies]
ahash = "0.8"
fuzzy-matcher = "0.3"
glob = "0.3"
regex = "1"
walkdir = "2"
serde = { version = "1", features = ["derive"] }
serde_json = "1"
bincode = "1"
flate2 = "1"
dirs = "5"
notify = "6"
clap = { version = "4", features = ["derive"] }
thiserror = "1"
tracing = "0.1"
tracing-subscriber = { version = "0.3", features = ["env-filter"] }
tracing-appender = "0.2"
anyhow = "1"
rayon = "1"
