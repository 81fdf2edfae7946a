[package]
name = "gc_pcsaft"
version = "0.1.0"
edition = "2021"
publish = false

[dependencies]
indexmap = "*"
petgraph = "*"
num-dual = "*"
ndarray = "*"
serde = { version = "*", features = ["derive"] }
serde_json = "*"
