[package]
name = "fft"
version = "0.1.0"
edition = "2021"
publish = false

[dependencies]
jiff = { version = "0.2", features = ["tzdb-bundle-always"] }
serde = { version = "1", features = ["derive"] }
serde_json = "1"
