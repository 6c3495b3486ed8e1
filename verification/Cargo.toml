[package]
name = "mailtutan_lib"
version = "0.1.0"
edition = "2021"
publish = false

[dependencies]
mailparse = "*"
chrono = "*"
serde = { version = "*", features = ["derive"] }
mailin-embedded = "*"
