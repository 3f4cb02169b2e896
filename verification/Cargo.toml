[package]
name = "tau"
version = "0.1.0"
edition = "2021"
publish = false

[dependencies]
blake3 = "1"
comfy-table = "7"
dialoguer = "0.11"
dirs = "6"
json5 = "0.4"
libc = "0.2"
rand = "0.9"
serde = { version = "1", features = ["derive"] }
serde_json = "1"
ureq = "2"
