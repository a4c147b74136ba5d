[package]
name = "ykoath"
version = "0.1.0"
edition = "2021"
publish = false

[dependencies]
pcsc = "2"
thiserror = "1"
tracing = "0.1"
