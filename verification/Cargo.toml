[package]
name = "replfs"
version = "0.1.0"
edition = "2021"
publish = false

[dependencies]
fuse = "0.3"
libc = "0.2"
log = "0.4"
serialport = { version = "4", default-features = false }
time = "0.1"
