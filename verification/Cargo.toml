[package]
name = "mkpatch"
version = "0.1.0"
edition = "2021"
publish = false

[dependencies]
miniz_oxide = "0.8"
walkdir = "2"
anyhow = "1"
clap = "2"
log = "0.4"
simple_logger = "5"
serde = { version = "1", features = ["derive"] }
serde_yaml = "0.8"

[dev-dependencies]
crc32fast = "1"
