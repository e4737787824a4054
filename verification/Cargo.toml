[package]
name = "file-crypto"
version = "0.1.0"
edition = "2021"
publish = false

[dependencies]
aes-gcm = "=0.10.3"
sha2 = "=0.10.9"
rand = "=0.8.8"
crossbeam-channel = "=0.5.17"
parking_lot = "=0.12.5"
tokio = { version = "=1.54.1", features = ["rt", "time", "macros"] }
clap = { version = "4", features = ["derive"] }
