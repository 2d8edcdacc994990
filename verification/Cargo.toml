[package]
name = "sfu_uploader"
version = "0.1.0"
edition = "2021"
publish = false

[dependencies]
serialport = { version = "=4.10.1", default-features = false }
libc = "=0.2.190"
libloading = "=0.9.0"
rusb = "=0.9.4"
