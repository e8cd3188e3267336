[package]
name = "gm65_scanner"
version = "0.1.0"
edition = "2021"
publish = false

[dependencies]
embedded-hal = "0.2.7"
nb = "1"
embedded-io-async = "0.6"
embassy-time = "*"

[dev-dependencies]
futures-executor = "0.3"
