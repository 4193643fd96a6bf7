[package]
name = "nesse_bank"
version = "0.1.0"
edition = "2021"
publish = false

[dependencies]
kv = "*"
csv = "*"
anyhow = "1"
clap = { version = "*", features = ["derive"] }
tempdir = "*"
