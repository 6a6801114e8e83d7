[package]
name = "sovereign_core"
version = "0.1.0"
edition = "2021"
publish = false

[dependencies]
adblock = { version = "=0.13.3", default-features = false, features = ["content-blocking", "embedded-domain-resolver", "full-regex-handling"] }
arc-swap = "=1.9.2"
dashmap = "=6.2.1"
serde = { version = "=1.0.229", features = ["derive"] }
serde_json = "=1.0.151"
url = "=2.5.8"
urlencoding = "=2.1.3"
