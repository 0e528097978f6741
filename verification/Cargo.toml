[package]
name = "ipmpsc"
version = "0.1.0"
edition = "2021"
publish = false

[dependencies]
bincode = "1"
serde = "1"
libc = "0.2"
memmap = "0.7"
tempfile = "3"
