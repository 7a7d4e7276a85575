[package]
name = "qz"
version = "0.1.0"
edition = "2021"
publish = false

[dependencies]
crc32fast = "1"
lz4-compression = "*"
zstd = "0.13"
serde = { version = "1", features = ["derive"] }
serde_json = "1"
clap = "2"
file-size = "*"
