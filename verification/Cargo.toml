[package]
name = "ledger_utils"
version = "0.1.0"
edition = "2021"
publish = false

[dependencies]
ledger-parser = "*"
chrono = "0.4"
rust_decimal = "*"
