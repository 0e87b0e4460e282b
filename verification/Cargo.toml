[package]
name = "vial"
version = "0.1.0"
edition = "2021"
publish = false

[dependencies]
basic-cookies = "*"
fly-accept-encoding = "*"
http = "*"
serde = { version = "*", features = ["derive"] }
serde_json = "*"
