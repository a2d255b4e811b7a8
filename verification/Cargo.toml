[package]
name = "ledger_core"
version = "0.1.0"
edition = "2021"
publish = false

[dependencies]
base64 = "*"
rust_decimal = "*"
chrono = "*"
serde_json = "*"
