[package]
name = "kerblam"
version = "0.1.0"
edition = "2021"
publish = false

[dependencies]
rand = "*"
clap = { version = "*", features = ["derive"] }
serde = { version = "*", features = ["derive"] }
serde_json = "*"
toml = "*"
crossbeam-channel = "*"
ctrlc = "*"
filetime = "*"
walkdir = "*"
homedir = "*"
chrono = "*"
anyhow = "*"
log = "*"
env_logger = "*"
