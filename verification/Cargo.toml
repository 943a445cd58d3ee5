[package]
name = "svg2png"
version = "0.1.0"
edition = "2021"
publish = false

[dependencies]
resvg = "*"
rand = "0.8"
clap = { version = "4", features = ["derive"] }
