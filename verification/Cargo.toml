[package]
name = "monty"
version = "0.1.0"
edition = "2021"
publish = false

[dependencies]
ahash = "0.8"
chrono = { version = "0.4", default-features = false, features = ["alloc"] }
num-integer = "0.1"
speedate = "*"
