[package]
name = "a_sabr_verified"
version = "0.1.0"
edition = "2021"
publish = false

[dependencies]
itertools = "*"
ringbuffer = "*"
serde_json = "*"
