[package]
name = "iro"
version = "0.1.0"
edition = "2021"
publish = false

[dependencies]
colornamer = "*"
knus = "*"
serde = { version = "*", features = ["derive"] }
serde_json = "*"
serde_with = "*"
clap = { version = "*", features = ["derive"] }
anyhow = "*"
log = "*"
miette = "*"
pretty_env_logger = "*"
human-panic = "*"
notify = "*"
dirs = "*"
pathdiff = "*"
