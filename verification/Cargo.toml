[package]
name = "aftp"
version = "0.1.0"
edition = "2021"
publish = false

[dependencies]
async-std = "1"
async-tls = "0.11"
chrono = "0.4"
regex = "1"
rustls = "0.19"
webpki = "0.21"
