[package]
name = "figurehead"
version = "0.1.0"
edition = "2021"
publish = false

[dependencies]
anyhow = "1"
unicode-width = "0.2"
clap = { version = "4", features = ["derive"] }
crossterm = "*"
serde_json = "1"
