[package]
name = "dp_regression"
version = "0.1.0"
edition = "2021"
publish = false

[dependencies]
include_bytes_aligned = "*"
risc0-zkvm = "*"
tracing-subscriber = { version = "0.3", features = ["env-filter"] }
