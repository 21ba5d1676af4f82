[package]
name = "calculate_winner"
version = "0.1.0"
edition = "2021"
publish = false

[dependencies]
serde_json = "1"
clap = { version = "4", features = ["derive"] }
dotenv = "0.15"

[dev-dependencies]
alloy-sol-types = "*"
