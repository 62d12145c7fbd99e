[package]
name = "cache_diff"
version = "0.1.0"
edition = "2021"
publish = false

[dependencies]
bullet_stream = "*"
