[package]
name = "npng"
version = "0.1.0"
edition = "2021"
publish = false

[dependencies]
crc32fast = "*"
flate2 = "*"
zstd = "*"
rayon = "*"
image = "*"
