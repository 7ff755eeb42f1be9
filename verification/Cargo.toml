[package]
name = "photon"
version = "0.1.0"
edition = "2021"
publish = false

[dependencies]
base64 = "=0.22.1"
sha1 = "=0.10.7"
httlib-hpack = "=0.1.3"
tokio = { version = "=1.54.1", features = ["full"] }
dashmap = "=6.2.1"
rand = "=0.9.5"
rustls = { version = "=0.23.46", default-features = false, features = ["ring", "std", "tls12"] }
tokio-rustls = { version = "=0.26.6", default-features = false, features = ["ring", "tls12"] }
webpki-roots = "=1.0.10"
socket2 = { version = "=0.5.10", features = ["all"] }
bytes = "=1.12.1"
async-ffi = "=0.5.1"
