[package]
name = "merlin"
version = "0.1.0"
edition = "2021"
publish = false

[dependencies]
byteorder = "=1.5.0"
clear_on_drop = "=0.2.5"
keccak = "=0.1.6"

[dev-dependencies]
strobe-rs = "=0.13.0"
