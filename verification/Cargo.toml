[package]
name = "queen_core"
version = "0.1.0"
edition = "2021"
publish = false

[dependencies]
serde_json = "*"
queen = "*"
queen-io = "*"
