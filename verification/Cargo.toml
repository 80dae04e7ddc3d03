[package]
name = "rlai"
version = "0.1.0"
edition = "2021"

[dependencies]
peroxide = { version = "=0.37.9", features = ["parquet"] }
indicatif = "=0.17.11"
