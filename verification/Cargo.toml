[package]
name = "deck"
version = "0.3.0"
edition = "2021"
publish = false

[dependencies]
anyhow = "1"
chrono = "0.4"
clap = { version = "4", features = ["derive"] }
dirs = "5"
libc = "0.2"
serde = { version = "1", features = ["derive"] }
toml = "0.8"
