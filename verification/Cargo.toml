[package]
name = "nv_smi"
version = "0.1.0"
edition = "2021"
publish = false

[dependencies]
crossterm = "*"
yaml-rust = "0.4"
