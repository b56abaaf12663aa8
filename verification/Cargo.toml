[package]
name = "rekker"
version = "0.1.0"
edition = "2021"
publish = false

[dependencies]
regex = "1"
humantime = "2"
rustls = { version = "0.23", default-features = false, features = ["ring", "std", "tls12", "logging"] }
webpki-roots = "0.26"
chrono = "0.4"
colored = "2"
pyo3 = "0.20"
