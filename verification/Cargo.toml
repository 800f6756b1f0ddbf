[package]
name = "mmr_history"
version = "0.1.0"
edition = "2021"
publish = false

[dependencies]
libc = "=0.2.191"
zcash_history = "=0.4.0"
zcash_protocol = "=0.11.0"
