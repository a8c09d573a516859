[package]
name = "peach"
version = "0.1.0"
edition = "2021"
publish = false

[dependencies]
anyhow = "*"
base16ct = { version = "*", features = ["alloc"] }
blake3 = "*"
flate2 = "*"
sha2 = "*"
spdx = "*"
tar = "*"
toml_edit = "*"
tracing = "*"
