[package]
name = "mini_git"
version = "0.1.0"
edition = "2021"
publish = false

[dependencies]
anyhow = "1"
flate2 = "1"
hex = "0.4"
sha1 = "0.10"
