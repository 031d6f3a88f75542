[package]
name = "luminal"
version = "0.1.0"
edition = "2021"
publish = false

[dependencies]
petgraph = "0.6"
half = "2"
metal = "0.27"
rand = "0.8"
