[package]
name = "solana_wallet"
version = "0.1.0"
edition = "2021"
publish = false

[dependencies]
serde_json = "*"
dirs = "*"
clap = { version = "*", features = ["derive"] }
tokio = { version = "*", default-features = false, features = ["macros", "rt-multi-thread"] }
