[package]
name = "eco2-core"
version = "0.1.0"
edition = "2021"
publish = false

[dependencies]
parity-scale-codec = "3"
sp-crypto-hashing = "*"
