[package]
name = "veil_proxy"
version = "0.1.0"
edition = "2021"
publish = false

[dependencies]
anyhow = "=1.0.104"
flate2 = "=1.1.10"
ftlog = "=0.2.18"
httparse = "=1.10.1"
itoa = "=1.0.18"
libc = "=0.2.191"
lru = "=0.19.0"
matchit = "=0.9.2"
mime_guess = "=2.0.5"
monoio = "=0.2.4"
once_cell = "=1.21.4"
ring = "=0.17.14"
rustls = { version = "=0.23.46", default-features = false, features = ["ring", "std", "tls12"] }
serde = { version = "=1.0.229", features = ["derive"] }
wasmtime = { version = "=44.0.3", default-features = false, features = ["runtime", "std"] }
webpki-roots = "=1.0.11"
