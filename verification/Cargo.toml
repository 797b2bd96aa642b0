[package]
name = "zed_lock"
version = "0.1.2"
edition = "2021"
publish = false

[dependencies]
anyhow = "1"
fs2 = "0.4"
libc = "0.2"
