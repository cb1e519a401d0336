[package]
name = "rv64_emu"
version = "0.1.0"
edition = "2021"
publish = false

[dependencies]
elf = "*"
