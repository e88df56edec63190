[package]
name = "guess_session"
version = "0.1.0"
edition = "2021"
publish = false

[dependencies]
memmap2 = "*"
rand = "0.8"
