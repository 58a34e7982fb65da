[package]
name = "cblt"
version = "0.1.0"
edition = "2021"
publish = false

[dependencies]
kdl = "*"
tokio = { version = "*", features = ["full"] }
reqwest = { version = "*", default-features = false }
http = "*"
bytes = "*"
log = "*"
env_logger = "*"
tracing = "*"
tracing-subscriber = "*"
