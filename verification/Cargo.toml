[package]
name = "snap7"
version = "0.1.7"
edition = "2021"
publish = false

[dependencies]
hmac = "=0.12.1"
sha2 = "=0.10.9"
tokio = { version = "=1.54.1", features = ["full"] }
tokio-rustls = { version = "=0.26.6", default-features = false, features = ["ring", "tls12", "logging"] }
webpki-roots = "=1.0.10"
serde = { version = "=1.0.229", features = ["derive"] }
url = "=2.5.8"
