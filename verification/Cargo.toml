[package]
name = "taxi_weather"
version = "0.1.0"
edition = "2021"
publish = false

[dependencies]
polars = { version = "*", default-features = false, features = ["parquet", "dtype-datetime"] }
charming = "*"
clap = { version = "*", features = ["derive"] }
rayon = "*"
tracing = "*"
tracing-subscriber = "*"
