[package]
name = "hadrond"
version = "0.1.0"
edition = "2021"
publish = false

[dependencies]
seahash = "4"
serde = { version = "1", features = ["derive"] }
serde_yaml = "0.9"
anyhow = "1"
thiserror = "1"
tokio = { version = "1", features = ["full"] }
sled = "0.34"
uuid = { version = "1", features = ["v4"] }
envy = "0.4"
tracing = "0.1"
tracing-subscriber = { version = "0.3", features = ["env-filter"] }
trust-dns-resolver = "0.23"
