[package]
name = "bashrand"
version = "0.1.0"
edition = "2021"
publish = false

[dependencies]
rayon = "1"
crossbeam-channel = "0.5"
clap = { version = "4", features = ["derive"] }
