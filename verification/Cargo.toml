[package]
name = "moree"
version = "0.1.0"
edition = "2021"
publish = false

[dependencies]
clap = { version = "*", features = ["derive"] }
colored = "*"
dialoguer = "*"
dirs = "*"
serde = { version = "*", features = ["derive"] }
serde_json = "*"
