[package]
name = "cargo_affected"
version = "0.1.0"
edition = "2021"
publish = false

[dependencies]
globset = "*"
guppy = "*"
serde_json = "1"
