[package]
name = "linuxscp"
version = "0.1.0"
edition = "2021"
publish = false

[dependencies]
anyhow = "1"
async-channel = "2"
dirs = "*"
futures = "0.3"
gtk4 = { version = "0.9", features = ["v4_12"] }
keyring = { version = "3", features = ["async-secret-service", "tokio", "crypto-rust"] }
libadwaita = { version = "0.7", features = ["v1_5"] }
russh-sftp = "2"
serde = { version = "1", features = ["derive"] }
serde_json = "1"
shell-words = "1"
tokio = { version = "1", features = ["full"] }
tokio-util = "0.7"
tracing = "0.1"
tracing-subscriber = { version = "0.3", features = ["env-filter"] }
uuid = { version = "1", features = ["v4"] }
