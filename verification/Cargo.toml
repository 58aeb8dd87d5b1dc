[package]
name = "marcel"
version = "0.1.0"
edition = "2021"
publish = false

[dependencies]
async-channel = "2"
rustix = { version = "1.1", features = ["fs", "process"] }
tempfile = "3"
xattr = "1"
