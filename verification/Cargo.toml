[package]
name = "image_plugins"
version = "0.1.0"
edition = "2021"
publish = false

[dependencies]
serde_json = "*"
log = "*"
env_logger = "*"
chrono = "*"
clap = { version = "*", features = ["derive"] }
image = "*"
libloading = "*"
thiserror = "*"
