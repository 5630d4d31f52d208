[package]
name = "sweep"
version = "0.1.0"
edition = "2021"
publish = false

[dependencies]
walkdir = "*"
tokio = { version = "*", features = ["fs", "sync"] }
futures = "*"
dialoguer = "*"
indicatif = "*"
colored = "*"
