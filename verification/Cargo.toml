[package]
name = "rpc_reader"
version = "0.1.0"
edition = "2021"
publish = false

[dependencies]
futures = "0.3"
rmp-serde = "1"
serde = "1"
