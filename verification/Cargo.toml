[package]
name = "vsd"
version = "0.1.0"
edition = "2021"
publish = false

[dependencies]
anyhow = "1"
kdam = "*"
requestty = "*"
reqwest = { version = "*", default-features = false }
serde = { version = "1", features = ["derive"] }
