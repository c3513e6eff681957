[package]
name = "llvmenv"
version = "0.1.0"
edition = "2021"
publish = false

[dependencies]
url = "*"
dirs = "*"
tempfile = "*"
tar = "*"
flate2 = "*"
xz2 = "*"
reqwest = { version = "*", default-features = false, features = ["blocking", "rustls-tls"] }
