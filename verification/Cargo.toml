[package]
name = "clli"
version = "0.1.0"
edition = "2021"

[dependencies]
rand = "*"
clap = { version = "*", features = ["derive"] }
