[package]
name = "shared_ownership"
version = "0.1.0"
edition = "2021"
publish = false

[dependencies]
file_access = "*"
