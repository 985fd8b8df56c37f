[package]
name = "ate"
version = "0.1.0"
edition = "2021"
publish = false

[dependencies]
base64 = "0.13"
bincode = "1"
btreemultimap = "*"
fastrand = "*"
fxhash = "*"
hex = "*"
rmp-serde = "*"
serde = { version = "*", features = ["derive"] }
serde_json = "*"
