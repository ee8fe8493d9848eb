[package]
name = "tangle_pallets"
version = "0.1.0"
edition = "2021"
publish = false

[dependencies]
sp-arithmetic = "=29.0.0"
sp-crypto-hashing = "*"
parity-scale-codec = { version = "*", features = ["derive"] }
