[package]
name = "authcore"
version = "0.1.0"
edition = "2021"
publish = false

[dependencies]
argon2 = { version = "=0.5.3", features = ["std"] }
jsonwebtoken = "=9.3.1"
rand = "=0.9.5"
url = "2"
uuid = { version = "=1.27.0", features = ["v4"] }
validator = "=0.20.0"

[dev-dependencies]
base64 = "=0.22.1"
serde_json = "=1.0.151"
