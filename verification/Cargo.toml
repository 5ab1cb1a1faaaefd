[package]
name = "bm25_agg"
version = "0.1.0"
edition = "2021"
publish = false

[dependencies]
fastbloom = "*"
binary-heap-plus = "*"
tokio-postgres = "*"
