[package]
name = "btmesh_operator"
version = "0.1.0"
edition = "2021"
publish = false

[dependencies]
uuid = "*"
serde_json = "*"
