[package]
name = "consh"
version = "0.1.0"
edition = "2021"
publish = false

[dependencies]
aws-lc-rs = "*"
ciborium = "*"
time = { version = "*", features = ["serde"] }
base64 = "*"
clap = { version = "*", features = ["derive"] }
colog = "*"
log = "*"
libc = "*"
