[package]
name = "ts_clientquery"
version = "0.1.0"
edition = "2021"
publish = false

[dependencies]
anyhow = "1"
clap = "3"
env_logger = "0.9"
log = "0.4"
serde = { version = "1", features = ["derive"] }
serde_derive = "1"
serde-teamspeak-querystring = "*"
tokio = { version = "1", features = ["io-util", "macros", "net", "rt", "signal", "sync", "time"] }
