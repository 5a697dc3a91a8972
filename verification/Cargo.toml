[package]
name = "rep_cxl"
version = "0.1.0"
edition = "2021"
publish = false

[dependencies]
rand = "0.9"
libc = "0.2"
log = "0.4"
clap = "4"
serde = { version = "1", features = ["derive"] }
toml = "0.8"
simple_logger = "*"
