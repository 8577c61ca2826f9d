[package]
name = "dot2shader"
version = "0.1.0"
edition = "2021"
publish = false

[dependencies]
image = { version = "*", default-features = false, features = ["png", "bmp", "gif"] }
serde = { version = "*", features = ["derive"] }
serde_json = "*"
