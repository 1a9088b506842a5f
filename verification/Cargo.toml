[package]
name = "qtcre"
version = "0.1.0"
edition = "2021"
publish = false

[dependencies]
chrono = "*"
flate2 = "*"
zstd-safe = { version = "*", features = ["std"] }
thiserror = "*"
