[package]
name = "talker_pack"
version = "0.1.0"
edition = "2021"
publish = false

[dependencies]
anyhow = "1"
clap = { version = "4", features = ["derive"] }
csv = "1"
env_logger = "*"
globwalk = "*"
log = "0.4"
serde = { version = "1", features = ["derive"] }
