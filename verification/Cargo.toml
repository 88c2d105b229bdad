[package]
name = "stylus_ledger"
version = "0.1.0"
edition = "2021"
publish = false

[dependencies]
stylus-sdk = "=0.10.10"
