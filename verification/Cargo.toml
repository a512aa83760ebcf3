[package]
name = "hotaru"
version = "0.1.0"
edition = "2021"
publish = false

[dependencies]
regex = "=1.13.1"
tokio = { version = "=1.54.1", features = ["rt", "time"] }
akari = "*"
serde = { version = "1", features = ["derive"] }
serde_json = "1"
