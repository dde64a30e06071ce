[package]
name = "stackablectl"
version = "0.1.0"
edition = "2021"
publish = false

[dependencies]
semver = "1"
clap = { version = "4", features = ["derive"] }
serde = { version = "1", features = ["derive"] }
serde_json = "1"
serde_yaml = "0.9"
indexmap = { version = "2", features = ["serde"] }
