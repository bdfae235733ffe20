[package]
name = "mitm_proxy"
version = "0.1.0"
edition = "2021"
publish = false

[dependencies]
uuid = { version = "*", features = ["v4"] }
tokio = { version = "*", features = ["rt-multi-thread", "net", "io-util", "macros", "sync", "time"] }
rustls = { version = "*", default-features = false, features = ["ring", "std", "tls12", "logging"] }
tokio-rustls = { version = "*", default-features = false, features = ["ring", "tls12", "logging"] }
rustls-pemfile = "*"
rustls-pki-types = "*"
webpki-roots = "*"
log = "*"
log4rs = "*"
