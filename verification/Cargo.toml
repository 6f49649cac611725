[package]
name = "focil"
version = "0.1.0"
edition = "2021"
publish = false

[dependencies]
ssz_types = "*"
tree_hash = "*"
typenum = "1"
serde = { version = "1", features = ["derive"] }
parking_lot = "0.12"
