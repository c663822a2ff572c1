[package]
name = "tx_observer"
version = "0.1.0"
edition = "2021"
publish = false

[dependencies]
hyper = { version = "*", default-features = false }
rusqlite = { version = "*", default-features = false }
uuid = { version = "*", default-features = false }
