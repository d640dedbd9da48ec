[package]
name = "kvstore"
version = "0.1.0"
edition = "2021"
publish = false

[dependencies]
kv = "0.22"
wildmatch = "2"
sled = "0.34"
