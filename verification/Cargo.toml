[package]
name = "json_parser"
version = "0.1.0"
edition = "2021"
publish = false

[dependencies]
serde_json = { version = "1", features = ["preserve_order"] }
serde_yaml = "0.9"
quick-xml = { version = "*", features = ["serialize"] }
anyhow = "1"
clap = { version = "4", features = ["cargo"] }
env_logger = "*"
log = "0.4"
thiserror = "1"
