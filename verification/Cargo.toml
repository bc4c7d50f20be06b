[package]
name = "gpo_insight"
version = "0.1.0"
edition = "2021"
publish = false

[dependencies]
anyhow = "*"
clap = { version = "*", features = ["derive"] }
console = "*"
dirs = "*"
encoding_rs = "*"
encoding_rs_io = "*"
html2text = "*"
lazy_static = "*"
