[package]
name = "evograph"
version = "0.1.0"
edition = "2021"
publish = false

[dependencies]
burn = { version = "=0.18.0", default-features = false, features = ["std", "ndarray", "autodiff"] }
serde_json = "*"
serde = { version = "*", features = ["derive"] }
