[package]
name = "hhutos"
version = "0.1.0"
edition = "2021"
publish = false

[dependencies]
bitflags = "2"
itoa = "1"
spin = "0.9"
