[package]
name = "caption_compiler"
version = "0.1.0"
edition = "2021"
publish = false

[dependencies]
clap = { version = "4", features = ["derive"] }
crc32fast = "1"
encoding_rs = "0.8"
encoding_rs_io = "0.1"
keyvalues-parser = "*"
