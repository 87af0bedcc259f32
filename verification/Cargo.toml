[package]
name = "speakeasy"
version = "0.1.0"
edition = "2021"
publish = false

[dependencies]
regex = "1"
serde = { version = "1", features = ["derive"] }
serde_json = "1"
ureq = "2"
arboard = "3"
device_query = "2"
