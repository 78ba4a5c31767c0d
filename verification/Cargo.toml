[package]
name = "quic_header"
version = "0.1.0"
edition = "2021"
publish = false

[dependencies]
bitflags = "2"
socket2 = "0.5"
