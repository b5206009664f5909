[package]
name = "reflate"
version = "0.1.0"
edition = "2021"
publish = false

[dependencies]
crc32fast = "*"
flate2 = "*"
clap = { version = "*", features = ["derive"] }
zstd = "*"
