[package]
name = "nrvc"
version = "0.1.0"
edition = "2021"
publish = false

[dependencies]
anyhow = "1"
byteorder = "1"
clap = { version = "4", features = ["derive"] }
image = { version = "0.25", default-features = false, features = ["png", "tiff"] }
kdam = "*"
once_cell = "1"
wild = "2"
