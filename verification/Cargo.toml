[package]
name = "fdr2csv"
version = "0.1.0"
edition = "2021"
publish = false

[dependencies]
flate2 = "*"
csv = "*"
clap = { version = "*", features = ["derive"] }
