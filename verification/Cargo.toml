[package]
name = "sign_core"
version = "0.1.0"
edition = "2021"
publish = false

[dependencies]
base64 = "*"
hmac = "*"
pbkdf2 = "*"
sha2 = "*"
serde = { version = "*", features = ["derive"] }
serde_json = "*"
