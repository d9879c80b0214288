[package]
name = "honeydew"
version = "0.1.0"
edition = "2021"
publish = false

[dependencies]
fastrand = "1"
serde = { version = "1", features = ["derive"] }
ron = "0.6"

[dev-dependencies]
bincode = "1.3"
