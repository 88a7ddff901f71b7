[package]
name = "sif_rs"
version = "0.1.0"
edition = "2021"
publish = false

[dependencies]
regex = "1"
derive_more = { version = "*", features = ["display"] }
