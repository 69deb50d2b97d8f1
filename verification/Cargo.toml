[package]
name = "betcube"
version = "0.1.0"
edition = "2021"
publish = false

[dependencies]
multiversx-sc = "=0.66.2"
sha2 = "0.10"
