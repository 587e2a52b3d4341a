[package]
name = "dbsc"
version = "0.1.0"
edition = "2021"
publish = false

[dependencies]
base64 = "0.22"
p256 = "*"
rand = "*"
rsa = { version = "0.9", features = ["sha2"] }
serde = { version = "1", features = ["derive"] }
serde_json = "1"
sha2 = { version = "0.10", features = ["oid"] }
uuid = { version = "1", features = ["v4"] }
