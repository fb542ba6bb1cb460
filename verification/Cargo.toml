[package]
name = "logs"
version = "0.1.0"
edition = "2021"
publish = false

[dependencies]
chrono = { version = "*", features = ["serde"] }
chrono-humanize = "*"
serde = { version = "*", features = ["derive"] }
serde_json = "*"

[dev-dependencies]
regex = "*"
