[package]
name = "parsiphae"
version = "0.2.0"
edition = "2021"
publish = false

[dependencies]
anyhow = "1"
clap = "2"
env_logger = "*"
log = "0.4"
codespan-reporting = "0.11"
serde = { version = "1", features = ["derive"] }
serde_json = "1"
glob = "0.3"
time = "0.1"
