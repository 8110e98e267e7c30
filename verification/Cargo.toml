[package]
name = "account_access"
version = "0.1.0"
edition = "2021"

[dependencies]
casper-contract = { version = "=5.1.1", default-features = false }
casper-types = "=6.1.0"
