[package]
name = "solray"
version = "0.1.0"
edition = "2021"
publish = false

[dependencies]
anyhow = "1"
clap = { version = "4", features = ["derive"] }
rayon = "1"
serde = { version = "1", features = ["derive"] }
serde_json = "1"
solc = "*"
toml = "*"
tracing = "0.1"
tracing-subscriber = "0.3"
walkdir = "2"
