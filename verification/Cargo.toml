[package]
name = "shell_core"
version = "0.1.0"
edition = "2021"
publish = false

[dependencies]
crossterm = "0.27"
phf = { version = "0.11", features = ["macros"] }
