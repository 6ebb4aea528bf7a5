[package]
name = "opentools"
version = "0.1.0"
edition = "2021"
publish = false

[dependencies]
clap = { version = "*", features = ["derive"] }
crossbeam = "*"
dashmap = "*"
flate2 = "*"
rayon = "*"
rust-htslib = { version = "*", default-features = false }
seq_io = "*"
thiserror = "*"
