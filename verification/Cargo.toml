[package]
name = "raw_linux"
version = "0.1.0"
edition = "2021"
publish = false

[dependencies]
syscalls = { version = "0.6", default-features = false }
