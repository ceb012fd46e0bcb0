[package]
name = "go_vm"
version = "0.1.0"
edition = "2021"
publish = false

[dependencies]
async-executor = "*"
futures-lite = "*"
