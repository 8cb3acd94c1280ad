[package]
name = "fixed128"
version = "0.1.0"
edition = "2021"
publish = false

[dependencies]
primitive-types = { version = "*", default-features = false }
sp-arithmetic = { version = "*", default-features = false }
parity-scale-codec = { version = "*", default-features = false, features = ["derive"] }
serde = "*"
