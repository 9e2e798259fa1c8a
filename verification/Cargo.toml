[package]
name = "cyclic_product"
version = "0.1.0"
edition = "2021"
publish = false

[dependencies]
anyhow = "1"
plonky2 = "=1.1.0"

[dev-dependencies]
rand = "0.8"
