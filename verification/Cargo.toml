[package]
name = "rusty_erasure"
version = "0.1.0"
edition = "2021"
publish = false

[dev-dependencies]
reed-solomon-erasure = "6"
