[package]
name = "autograder"
version = "0.1.0"
edition = "2021"
publish = false

[dependencies]
clap = "*"
lcov = "*"
serde = { version = "*", features = ["derive"] }
serde_json = "*"
serde_yaml = "*"
