[package]
name = "rustskill"
version = "0.4.0"
edition = "2021"
publish = false

[dependencies]
anyhow = "1"
clap = { version = "4", features = ["derive"] }
comfy-table = "7"
confy = "*"
console = "*"
indicatif = "*"
reqwest = { version = "*", features = ["json"] }
self_update = "*"
serde = { version = "1", features = ["derive"] }
serde_json = "1"
tokio = { version = "1", features = ["full"] }
toml = "*"
walkdir = "2"
