[package]
name = "adrift"
version = "0.1.0"
edition = "2021"
publish = false

[dependencies]
anyhow = "*"
indicatif = "*"
rusqlite = { version = "*", features = ["bundled"] }
structopt = "*"
walkdir = "*"
