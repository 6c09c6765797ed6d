[package]
name = "quickcfg"
version = "0.1.0"
edition = "2021"
publish = false

[dependencies]
failure = "0.1"
fxhash = "0.2"
serde = { version = "1", features = ["derive"] }
serde_derive = "1"
serde_yaml = "0.8"
