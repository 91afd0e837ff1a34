[package]
name = "acer_profile"
version = "0.1.0"
edition = "2021"
publish = false

[dependencies]
anyhow = "1"
async-io = "2"
clap = { version = "4", features = ["derive"] }
env_logger = "0.11"
log = "0.4"
serde = { version = "1", features = ["derive"] }
toml = "0.8"
zbus = "4"
