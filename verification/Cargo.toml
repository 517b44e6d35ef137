[package]
name = "evm_tracing"
version = "0.1.0"
edition = "2021"
publish = false

[dependencies]
ethereum-types = "0.14"
evm = { version = "0.41", features = ["tracing"] }
evm-gasometer = { version = "0.41", features = ["tracing"] }
evm-runtime = { version = "0.41", features = ["tracing"] }
