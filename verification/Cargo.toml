[package]
name = "pace_compiler"
version = "0.1.0"
edition = "2021"
publish = false

[dependencies]
lazy_static = "1"
mimalloc = { version = "0.1", default-features = false }
rustls = { version = "0.23", default-features = false, features = ["ring", "std", "tls12", "logging"] }
rustls-pki-types = "1"
tokio = { version = "1", default-features = false, features = ["rt", "rt-multi-thread", "sync"] }
webpki-roots = "1"
