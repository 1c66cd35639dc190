[package]
name = "paytube"
version = "0.1.0"
edition = "2021"
publish = false

[dependencies]
solana-sdk = "2"
spl-token = { version = "6", features = ["no-entrypoint"] }
spl-associated-token-account = { version = "4", features = ["no-entrypoint"] }
brotlic = "0.8"
dotenv = "0.15"
