[package]
name = "edmipng"
version = "0.1.0"
edition = "2021"
publish = false

[dependencies]
anyhow = "*"
clap = { version = "*", features = ["derive"] }
crc = "*"
reqwest = { version = "*", default-features = false, features = ["blocking", "rustls-tls"] }
