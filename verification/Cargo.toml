[package]
name = "kaifuku"
version = "0.1.0"
edition = "2021"
publish = false

[dependencies]
miniz_oxide = "*"
crossbeam-channel = "*"
anyhow = "*"
serde = { version = "*", features = ["derive"] }
serde_json = "*"
dirs = "*"
log = "*"
