[package]
name = "ouilookup"
version = "0.1.0"
edition = "2021"
publish = false

[dependencies]
pnet_datalink = "*"
reqwest = { version = "*", default-features = false }
anyhow = "*"
log = "*"
