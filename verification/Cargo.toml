[package]
name = "vibesearch"
version = "0.1.0"
edition = "2021"
publish = false

[dependencies]
base64 = "*"
bincode = { version = "2", features = ["serde"] }
openai_dive = "*"
rand = "*"
ring = "*"
serde = "*"
serde_json = "*"
