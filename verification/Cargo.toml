[package]
name = "rouille"
version = "0.1.0"
edition = "2021"
publish = false

[dependencies]
brotli2 = "=0.3.2"
deflate = { version = "=1.0.0", features = ["gzip"] }
num_cpus = "=1.17.0"
rustc-serialize = "=0.3.25"
threadpool = "=1.8.1"
tiny_http = "=0.12.0"

[dev-dependencies]
flate2 = "=1.1.10"
