[package]
name = "ipld_git"
version = "0.1.0"
edition = "2021"
publish = false

[dependencies]
cid = "0.3"
hex = "0.3"
multihash = "0.8"
