[package]
name = "commission_store"
version = "0.1.0"
edition = "2021"
publish = false

[dependencies]
chrono = "*"
fs_extra = "*"

[dev-dependencies]
serde_json = "*"
