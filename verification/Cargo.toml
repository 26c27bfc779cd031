[package]
name = "rvirt"
version = "0.1.0"
edition = "2021"
publish = false

[dependencies]
arrayvec = { version = "0.4", default-features = false }
byteorder = { version = "1", default-features = false }
riscv-decode = "0.2"
