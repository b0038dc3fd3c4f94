[package]
name = "ninecopy"
version = "0.1.0"
edition = "2021"
publish = false

[dependencies]
byte-unit = "4"
clap = { version = "4", features = ["derive"] }
