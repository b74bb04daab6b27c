[package]
name = "keystone_sm"
version = "0.1.0"
edition = "2021"
publish = false

[dependencies]
riscv = "*"
