[package]
name = "nutexb"
version = "0.1.0"
edition = "2021"
publish = false

[dependencies]
ddsfile = "0.5"
image = { version = "0.24", default-features = false, features = ["png"] }
