[package]
name = "proto_ts"
version = "0.1.0"
edition = "2021"
publish = false

[dependencies]
path-clean = "*"
