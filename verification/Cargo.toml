[package]
name = "minix_ipc"
version = "0.1.0"
edition = "2021"
publish = false

[dependencies]
array-init = "2.0"
nix = "0.20"
static_assertions = "1.1"
