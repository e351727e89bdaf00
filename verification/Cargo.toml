[package]
name = "cronos"
version = "0.1.0"
edition = "2021"
publish = false

[dependencies]
solana-sdk = "2"
agave-geyser-plugin-interface = "2"
clap = "4"
dotenv = "0.15"
