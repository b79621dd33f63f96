[package]
name = "winvoice_match"
version = "0.1.0"
edition = "2021"
publish = false

[dependencies]
humantime-serde = "1"
money2 = "*"
serde = { version = "1", features = ["derive"] }
serde_json = "1"
