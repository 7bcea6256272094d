[package]
name = "notcoal"
version = "0.1.0"
edition = "2021"
publish = false

[dependencies]
regex = "*"
mailparse = "*"
serde = { version = "*", features = ["derive"] }
serde_json = "*"
dirs = "*"
rust-ini = "*"
structopt = "*"
