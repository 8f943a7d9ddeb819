[package]
name = "xdp_tx"
version = "0.1.0"
edition = "2021"
publish = false

[dependencies]
s2n-quic-core = "*"
libc = "0.2"
