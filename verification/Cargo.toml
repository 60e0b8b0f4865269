[package]
name = "tech_tree"
version = "0.1.0"
edition = "2021"
publish = false

[dependencies]
anyhow = "1"
serde = { version = "1", features = ["derive"] }
serde_yaml = "0.8"
structopt = "0.3"
svg = "=0.13.1"
thiserror = "1"
