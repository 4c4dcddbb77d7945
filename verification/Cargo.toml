[package]
name = "block_chat"
version = "0.1.0"
edition = "2021"
publish = false

[dependencies]
rsa = { version = "0.9", features = ["sha2"] }
rand = "0.8"
rand_chacha = "0.3"
hex = "0.4"
serde = { version = "1", features = ["derive"] }
serde_json = "1"
clap = { version = "4", features = ["derive"] }
env_logger = "0.10"
log = "0.4"
thiserror = "1"
non-empty-string = "0.2"
