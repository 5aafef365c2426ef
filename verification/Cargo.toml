[package]
name = "sporaxis"
version = "0.0.3"
edition = "2021"
publish = false

[dependencies]
oxigraph = { version = "=0.4.11", default-features = false }
clap = { version = "=4.6.7", features = ["derive"] }
anyhow = "=1.0.104"
serde = { version = "1", features = ["derive"] }
serde_yaml = "0.9"
