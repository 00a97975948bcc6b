[package]
name = "nntp_headers"
version = "0.1.0"
edition = "2021"
publish = false

[dependencies]
log = "0.4"
nom = { version = "5", default-features = false, features = ["std"] }
