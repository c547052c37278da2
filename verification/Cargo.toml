[package]
name = "console_thingy"
version = "0.1.0"
edition = "2021"
publish = false

[dependencies]
anyhow = "*"
flume = "*"
parking_lot = "*"
