[package]
name = "card_reader"
version = "0.1.0"
edition = "2021"
publish = false

[dependencies]
base64 = "=0.23.1"
kovi = "=0.13.5"
kovi-onebot = "=0.13.2"
kovi-plugin-expand-napcat = "=0.5.0"
reqwest = { version = "=0.13.5", default-features = false }
serde = { version = "=1.0.229", features = ["derive"] }
