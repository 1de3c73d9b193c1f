[package]
name = "bizbuz"
version = "0.1.0"
edition = "2021"
publish = false

[dependencies]
bdo-rs = "*"
hex = "0.4"
serde = { version = "1", features = ["derive"] }
serde_json = "1"
sessionless = "*"
