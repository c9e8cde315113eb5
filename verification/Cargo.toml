[package]
name = "picto"
version = "0.1.0"
edition = "2021"
publish = false

[dependencies]
crc = "3"
clap = { version = "4", features = ["derive"] }
anyhow = "1"
thiserror = "*"
