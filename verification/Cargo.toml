[package]
name = "tinyboot"
version = "0.1.0"
edition = "2021"
publish = false

[dependencies]
embedded-io = "0.6"
embedded-io-async = "0.6"
embedded-storage = "0.3"
embedded-hal = "1"
critical-section = { version = "1", features = ["std"] }
