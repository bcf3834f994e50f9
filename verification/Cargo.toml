[package]
name = "phira-mp"
version = "0.1.0"
edition = "2021"
publish = false

[dependencies]
anyhow = "1"
byteorder = "1"
chrono = "0.4"
clap = { version = "4", features = ["derive"] }
dashmap = "5"
fluent = "0.16"
fluent-syntax = "0.11"
half = "2"
intl-memoizer = "0.5"
lru = "0.12"
once_cell = "1"
rand = "0.8"
reqwest = { version = "0.11", default-features = false, features = ["json", "rustls-tls"] }
serde = { version = "1", features = ["derive"] }
tokio = { version = "1", features = ["full"] }
tracing = "0.1"
tracing-appender = "0.2"
tracing-log = "0.2"
tracing-subscriber = { version = "0.3", features = ["env-filter"] }
unic-langid = "0.9"
uuid = { version = "1", features = ["v4"] }
