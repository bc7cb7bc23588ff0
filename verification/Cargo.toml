[package]
name = "ndef"
version = "0.1.0"
edition = "2021"
publish = false

[dependencies]
minicbor = { version = "=2.3.0", features = ["alloc"] }
