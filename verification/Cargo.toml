[package]
name = "identity_credential"
version = "0.1.0"
edition = "2021"
publish = false

[dependencies]
json-proof-token = "0.3"
serde = { version = "1", features = ["derive"] }
serde_json = "1"
