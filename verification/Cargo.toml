[package]
name = "bundle_miner"
version = "0.1.0"
edition = "2021"
publish = false

[dependencies]
iota-crypto = { version = "=0.23.2", features = ["kerl_deprecated_do_not_use"] }

[dev-dependencies]
iota-conversion = "=0.5.1"
