[package]
name = "sentinel"
version = "0.1.0"
edition = "2021"
publish = false

[dependencies]
rustls = { version = "*", default-features = false, features = ["ring", "std", "tls12"] }
webpki-roots = "*"
