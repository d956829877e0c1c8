[package]
name = "rethink_wire"
version = "0.1.0"
edition = "2021"
publish = false

[dependencies]
scram = "=0.6.0"
byteorder = "=1.5.0"
