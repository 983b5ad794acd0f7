[package]
name = "seed_otp"
version = "0.1.0"
edition = "2021"
publish = false

[dependencies]
anyhow = "1"
base64 = "*"
clap = { version = "*", features = ["derive"] }
colored_json = "*"
rand = "*"
serde = { version = "1", features = ["derive"] }
serde_json = "1"
sha2 = "*"
