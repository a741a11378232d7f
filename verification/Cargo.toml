[package]
name = "vk_archive_parser"
version = "0.1.0"
edition = "2021"
publish = false

[dependencies]
tl = "*"
encoding_rs = "*"
serde = { version = "*", features = ["derive"] }
serde_json = "*"
anyhow = "*"
rayon = "*"
indicatif = "*"

[dev-dependencies]
chrono = "*"
