[package]
name = "spotify2media"
version = "0.1.0"
edition = "2021"
publish = false

[dependencies]
csv = "1"
chrono = "0.4"
lofty = "*"
serde = { version = "1", features = ["derive"] }
serde_json = "1"
anyhow = "1"
