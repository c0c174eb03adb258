[package]
name = "ripenv"
version = "0.1.0"
edition = "2021"
publish = false

[dependencies]
anyhow = "*"
anstream = "*"
clap = { version = "*", features = ["derive"] }
fs-err = "*"
owo-colors = "*"
sha2 = "*"
toml = "*"

[dev-dependencies]
serde_json = "*"
