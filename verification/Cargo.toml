[package]
name = "opcode_table"
version = "0.1.0"
edition = "2021"
publish = false

[dependencies]
regex = "1"
scraper = "*"
curl = "0.4"
structopt = "0.3"
serde = { version = "1", features = ["derive"] }
serde_yaml = "0.8"
log = "0.4"
env_logger = "*"
