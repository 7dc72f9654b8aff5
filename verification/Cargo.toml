[package]
name = "ringstore"
version = "0.1.0"
edition = "2021"
publish = false

[dependencies]
async-std = "1"
bincode = "1"
get_if_addrs = "0.5"
serde = { version = "1", features = ["derive"] }
