[package]
name = "cetus"
version = "0.1.0"
edition = "2021"
publish = false

[dependencies]
async-trait = "0.1"
axum = "0.5"
chashmap = "2.2"
faster-hex = "0.6"
fred = "5"
futures-util = "0.3"
log = "0.4"
maxminddb = "0.23"
pretty_env_logger = "0.4"
prometheus = { version = "0.13", default-features = false }
serde = { version = "1", features = ["derive"] }
serde_json = "1"
tokio = { version = "1", features = ["rt", "net", "time", "fs", "macros", "sync"] }
toml = "0.5"
trust-dns-proto = { version = "0.22", features = ["serde-config"] }
trust-dns-server = { version = "0.22", default-features = false }
