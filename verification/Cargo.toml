[package]
name = "account_records"
version = "0.1.0"
edition = "2021"
publish = false

[dependencies]
borsh = "0.9"
solana-program = "=1.8.16"
thiserror = "1"
