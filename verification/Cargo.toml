[package]
name = "atomic_register"
version = "0.1.0"
edition = "2021"
publish = false

[dependencies]
kompact = { version = "=0.12.0", features = ["distributed"] }
kompact-net = "*"
synchronoise = "=1.0.1"
