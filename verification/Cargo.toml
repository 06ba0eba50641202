[package]
name = "naromat"
version = "1.2.0"
edition = "2021"
publish = false

[dependencies]
clap = "*"
