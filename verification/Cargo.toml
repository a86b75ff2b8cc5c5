[package]
name = "kmeans"
version = "0.1.0"
edition = "2021"
publish = false

[dependencies]
rand = "=0.8.8"
clap = { version = "=4.6.7", features = ["derive"] }
csv = "=1.4.0"
ndarray = "=0.17.2"
ndarray-csv = "=0.5.4"
rustc_apfloat = "*"
ieee-apsqrt = "*"
