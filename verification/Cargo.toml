[package]
name = "pepper"
version = "0.1.0"
edition = "2021"
publish = false

[dependencies]
fuzzy-matcher = "*"
copypasta = "*"
futures = "*"
smol = "*"
uds_windows = "*"
libc = "*"
