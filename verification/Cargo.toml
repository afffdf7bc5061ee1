[package]
name = "asp_spectra"
version = "0.1.0"
edition = "2021"
publish = false

[dependencies]
itertools = "0.14"
itertools-num = "0.1"
split-iter = "0.1"
walkdir = "2"
polars = { version = "*", default-features = false, features = ["csv"] }
