[package]
name = "libsquash"
version = "0.1.0"
edition = "2021"
publish = false

[dependencies]
chacha20 = "0.9"
memchr = "2"
hex = "0.4"
clap = { version = "4", features = ["derive"] }
