[package]
name = "wireauth_filter"
version = "0.1.0"
edition = "2021"
publish = false

[dependencies]
lru = "0.12"
tracing = "0.1"
