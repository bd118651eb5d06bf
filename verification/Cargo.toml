[package]
name = "sst_reader"
version = "0.1.0"
edition = "2021"
publish = false

[dependencies]
lzzzz = "=2.0.0"
memmap2 = "=0.9.11"
pot = "=3.0.1"
qfilter = { version = "=0.3.1", features = ["serde"] }
quick_cache = "=0.7.0"
rustc-hash = "=2.1.3"
