[package]
name = "benchmarks"
version = "0.1.0"
edition = "2021"
publish = false

[dependencies]
arroy = "0.6"
byte-unit = { version = "=5.2.6", features = ["rust_decimal"] }
clap = { version = "=4.6.7", features = ["derive"] }
enum-iterator = "=2.3.0"
fast-distances = "=0.0.1"
hannoy = "0.0.8"
heed = "0.22"
itertools = "0.14"
ndarray = "=0.16.1"
ordered-float = "5"
rand = "=0.8.8"
rayon = "=1.12.0"
roaring = "0.10"
slice-group-by = "=0.3.1"
tempfile = "=3.27.0"
tracing = "=0.1.44"
tracing-subscriber = { version = "=0.3.23", features = ["env-filter"] }
