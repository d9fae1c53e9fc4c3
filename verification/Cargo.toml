[package]
name = "zoop"
version = "0.1.0"
edition = "2021"
publish = false

[dependencies]
clap = "2"
env_logger = "*"
log = "*"
eyre = "*"
camino = "*"
tokio = { version = "*", features = ["process", "rt"] }
serde = "*"
serde_derive = "*"
