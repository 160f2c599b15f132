[package]
name = "shiftbbs"
version = "0.1.0"
edition = "2021"
publish = false

[dependencies]
crc = "3"
encoding_rs = "0.8"
serde = { version = "1", features = ["derive"] }
toml = "0.5"
