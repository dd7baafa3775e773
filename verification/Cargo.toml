[package]
name = "gdb_bridge"
version = "0.1.0"
edition = "2021"
publish = false

[dependencies]
serde_json = "1"
memfile = "*"

[dev-dependencies]
regex = "1"
num = "0.4"
serde-aux = "*"
