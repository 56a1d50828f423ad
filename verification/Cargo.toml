[package]
name = "evm_core"
version = "0.1.0"
edition = "2021"

[dependencies]
alloy = { version = "*", default-features = false }
