[package]
name = "atfuzz"
version = "0.1.0"
edition = "2021"
publish = false

[dependencies]
rand = "*"
clap = { version = "*", features = ["derive"] }
log = "*"
simple_logger = { version = "*", default-features = false }
serialport = { version = "*", default-features = false }
smashquote = "*"
