[package]
name = "ont_demult"
version = "0.1.0"
edition = "2021"
publish = false

[dependencies]
anyhow = "1"
clap = { version = "4", features = ["cargo"] }
compress_io = "*"
lazy_static = "1"
libc = "0.2"
log = "0.4"
stderrlog = "*"
