[package]
name = "chat"
version = "0.1.0"
edition = "2021"
publish = false

[dependencies]
urlencoding = "2"
log = "0.4"
clap = { version = "4", features = ["derive"] }
simple_logger = "*"
