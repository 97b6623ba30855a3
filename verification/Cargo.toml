[package]
name = "aptos_auction"
version = "0.1.0"
edition = "2021"
publish = false

[dependencies]
aptos-sdk = "=0.8.0"
bcs = "=0.1.6"
tokio = { version = "1", features = ["rt", "time"] }
