[package]
name = "skan_uj_kod"
version = "0.1.0"
edition = "2021"
publish = false

[dependencies]
anyhow = "1"
walkdir = "2"
