[package]
name = "rika"
version = "0.1.0"
edition = "2021"
publish = false

[dependencies]
starknet-core = "=0.16.0"
starknet-crypto = "=0.8.1"
starknet-providers = "=0.16.0"
starknet-types-core = "=0.2.4"
reqwest = { version = "*", default-features = false }
clap = { version = "4", features = ["derive"] }
chrono = "*"
shellexpand = "*"
dunce = "*"

[dev-dependencies]
hex = "*"
