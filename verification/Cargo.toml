[package]
name = "parquet_linter"
version = "0.1.0"
edition = "2021"
publish = false

[dependencies]
parquet = "*"
arrow-array = "*"
arrow-schema = "*"
anyhow = "*"
