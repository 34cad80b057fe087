[package]
name = "asdev"
version = "0.1.0"
edition = "2021"
publish = false

[dependencies]
anyhow = "1"
clap = "2"
dialoguer = { version = "0.10", default-features = false }
serde_yaml = "0.8"
