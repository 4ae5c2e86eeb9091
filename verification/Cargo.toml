[package]
name = "cairo-verifier"
version = "0.1.0"
edition = "2021"
publish = false

[dependencies]
bincode = { version = "2", features = ["serde"] }
hex = "0.4"
lambdaworks-math = "*"
num = "0.4"
serde = { version = "1", features = ["derive"] }
serde_json = "1"
