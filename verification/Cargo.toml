[package]
name = "kanon"
version = "0.1.0"
edition = "2021"
publish = false

[dependencies]
ring = "0.17"
serde = { version = "1", features = ["derive"] }
serde_json = "1"
toml = "0.8"
zip = "2"
thiserror = "2"

[dev-dependencies]
tempfile = "3"
