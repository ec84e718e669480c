[package]
name = "study_rust"
version = "0.1.0"
edition = "2021"
publish = false

[dependencies]
lazyrand = "*"
regex = "1"
vibrato = "0.5"
zstd = "0.13"
crossterm = "*"
image = { version = "0.25", default-features = false, features = ["png"] }
