[package]
name = "pqview"
version = "0.1.0"
edition = "2021"
publish = false

[dependencies]
anyhow = "*"
arrow-array = "*"
arrow-cast = "*"
arrow-schema = "*"
clap = { version = "*", features = ["derive"] }
parquet = { version = "*", features = ["arrow"] }
tabled = "*"
