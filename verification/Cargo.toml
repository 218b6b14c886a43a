[package]
name = "wallet_engine"
version = "0.1.0"
edition = "2021"
publish = false

[dependencies]
hex = "0.4"
rand = "0.8"
chrono = "0.4"
bip39 = { version = "2", features = ["rand"] }
serde = { version = "1", features = ["derive"] }
serde_json = "1"
dotenv = "0.15"
