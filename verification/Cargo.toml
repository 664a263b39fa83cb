[package]
name = "taskline"
version = "0.8.1"
edition = "2021"
publish = false

[dependencies]
redis = { version = "0.25", features = ["aio", "tokio-comp"] }
async-trait = "0.1"
serde = { version = "1", features = ["derive"] }
serde_json = "1"
