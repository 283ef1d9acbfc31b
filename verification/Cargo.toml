[package]
name = "plua"
version = "0.1.0"
edition = "2021"
publish = false

[dependencies]
piccolo = "0.3"
pumpkin-plugin-api = "*"
serde = { version = "1", features = ["derive"] }
serde_json = "1"
tracing = "0.1"
