[package]
name = "reust"
version = "0.1.0"
edition = "2021"
publish = false

[dependencies]
termion = "*"
