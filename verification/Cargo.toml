[package]
name = "bigdecimal"
version = "0.1.0"
edition = "2021"
publish = false

[dependencies]
num-bigint = "*"
num-integer = "*"
num-traits = "*"
serde = { version = "*", features = ["derive"] }
serde_json = "*"
