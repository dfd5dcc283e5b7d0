[package]
name = "spider"
version = "0.1.0"
edition = "2021"
publish = false

[dependencies]
anyhow = "1"
hex = "0.4"
rand = "0.5"
rustyline = "9"
sha2 = "0.8"
thiserror = "1"
