[package]
name = "esedb"
version = "0.1.0"
edition = "2021"
publish = false

[dependencies]
time = "0.3"
anyhow = "1"
clap = { version = "4", features = ["derive"] }
rusqlite = { version = "*", features = ["bundled"] }
