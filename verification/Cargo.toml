[package]
name = "training_manifest"
version = "0.1.0"
edition = "2021"
publish = false

[dependencies]
anyhow = "*"
image = "*"
iter_tools = "*"
rayon = "*"
serde = { version = "*", features = ["derive"] }
toml = "*"
