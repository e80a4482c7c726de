[package]
name = "rocket_auth_login"
version = "0.1.0"
edition = "2021"
publish = false

[dependencies]
rocket = { version = "0.5", features = ["secrets"] }
serde = { version = "=1.0.229", features = ["derive"] }
serde_json = "=1.0.154"
