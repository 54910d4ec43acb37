[package]
name = "glmm"
version = "0.1.0"
edition = "2021"
publish = false

[dependencies]
faer = { version = "0.24", default-features = false, features = ["std"] }
