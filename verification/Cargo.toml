[package]
name = "dlt_reader"
version = "0.1.0"
edition = "2021"
publish = false

[dependencies]
regex = "*"
clap = { version = "*", features = ["derive"] }
memmap = "*"
toml = "*"
serde = "*"
serde_derive = "*"
