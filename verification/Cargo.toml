[package]
name = "modav_core"
version = "0.1.0"
edition = "2021"
publish = false

[dependencies]
csv = "1"

[dev-dependencies]
proptest = "1"
