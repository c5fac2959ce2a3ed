[package]
name = "framewatch"
version = "0.1.0"
edition = "2021"
publish = false

[dependencies]
opencv = "*"
reqwest = { version = "*", default-features = false, features = ["blocking"] }
serde = { version = "*", features = ["derive"] }
thiserror = "*"
toml = "*"
