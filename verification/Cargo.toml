[package]
name = "neptune"
version = "0.1.0"
edition = "2021"
publish = false

[dependencies]
rust-gpu-tools = { version = "*", default-features = false, features = ["opencl"] }
