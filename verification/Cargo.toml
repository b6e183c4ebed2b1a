[package]
name = "egs_client"
version = "0.1.0"
edition = "2021"
publish = false

[dependencies]
actix = "0.13"
actix-web = "4"
actix-web-actors = "4"
anyhow = "1"
ctrlc = "3"
dashmap = "6"
egs-api = "*"
env_logger = "0.11"
futures-util = "0.3"
reqwest = { version = "0.12", features = ["stream"] }
serde = { version = "1", features = ["derive"] }
serde_json = "1"
sha1 = "0.10"
tokio = { version = "1", features = ["full"] }
walkdir = "2"
webbrowser = "1"

[dev-dependencies]
tempfile = "3"
