[package]
name = "word_freq"
version = "0.1.0"
edition = "2021"
publish = false

[dependencies]
anyhow = "1"
dashmap = "6"
rayon = "1"
regex = "1"
serde = { version = "1", features = ["derive"] }
toml = "0.8"
