[package]
name = "grbl_driver"
version = "0.1.0"
edition = "2021"
publish = false

[dependencies]
cgmath = "0.18"
serialport = { version = "4", default-features = false }
