[package]
name = "mar"
version = "0.1.0"
edition = "2021"
publish = false

[dependencies]
http = "1"
httparse = "1"
mio = { version = "1", features = ["os-poll", "net"] }
rustls = { version = "0.23", default-features = false, features = ["std", "ring", "tls12"] }
url = "2"
webpki-roots = "0.26"
