[package]
name = "copas_core"
version = "0.1.0"
edition = "2021"
publish = false

[dependencies]
sha2 = "*"
chrono = "*"
uuid = { version = "*", features = ["v4"] }
base64 = "*"
image = { version = "*", default-features = false, features = ["png"] }
arboard = "*"
enigo = "*"
dirs = "*"
