[package]
name = "quic-pair"
version = "0.1.0"
edition = "2021"
publish = false

[dependencies]
byteorder = "1"
bytes = "0.4"
rand = "0.6"
ring = "0.14"
rustls = "0.15"
slog = "2"
untrusted = "0.6"
webpki = "0.19"

[dev-dependencies]
cc = "=1.0.83"
