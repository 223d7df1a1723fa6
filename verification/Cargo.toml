[package]
name = "resphys"
version = "0.1.0"
edition = "2021"
publish = false

[dependencies]
fixed = "*"
fixed-sqrt = "*"
serde = { version = "*", features = ["derive"] }
