[package]
name = "simd_needle"
version = "0.1.0"
edition = "2021"
publish = false

[dependencies]
memmap2 = "*"
clap = { version = "*", features = ["derive"] }
glob = "*"
rayon = "*"
walkdir = "*"

[dev-dependencies]
tempfile = "*"
