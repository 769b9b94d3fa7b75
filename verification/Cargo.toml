[package]
name = "toytcp"
version = "0.1.0"
edition = "2021"
publish = false

[dependencies]
anyhow = "1"
local-ip-address = "*"
pnet = "*"
rand = "0.8"
