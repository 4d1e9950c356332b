[package]
name = "backend"
version = "0.1.0"
edition = "2021"
publish = false

[dependencies]
hex = "0.4"
regex = "1"
image = { version = "*", default-features = false }
ffprobe = "*"
rayon = "1"
serde = { version = "1", features = ["derive"] }
tracing = "0.1"
parse-display = "*"
