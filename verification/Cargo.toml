[package]
name = "moq"
version = "0.1.0"
edition = "2021"
publish = false

[dependencies]
bytes = "=1.12.1"
url = "=2.5.8"
serde = { version = "=1.0.229", features = ["derive"] }
serde_json = "=1.0.154"
serde_with = { version = "3", features = ["base64"] }
toml = "0.8"
jsonwebtoken = "=9.3.1"
anyhow = "=1.0.104"
thiserror = "=1.0.69"
clap = { version = "=4.6.7", features = ["derive"] }
tracing = "=0.1.44"
tracing-subscriber = { version = "=0.3.23", features = ["env-filter"] }
ring = "=0.17.14"
hex = "=0.4.3"
aws-lc-rs = "=1.19.0"
