[package]
name = "koxinga"
version = "0.1.0"
edition = "2021"
publish = false

[dependencies]
ming-wm-lib = "*"
reqwest = { version = "*", features = ["blocking"] }
