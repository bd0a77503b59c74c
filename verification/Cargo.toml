[package]
name = "fontface"
version = "0.1.0"
edition = "2021"
publish = false

[dependencies]
clap = { version = "*", features = ["cargo"] }
reqwest = { version = "*", default-features = false, features = ["blocking"] }
