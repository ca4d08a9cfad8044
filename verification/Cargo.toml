[package]
name = "cargo_geiger"
version = "0.1.0"
edition = "2021"
publish = false

[dependencies]
cargo_metadata = "=0.23.1"
cargo-platform = "=0.3.3"
petgraph = "=0.8.3"
cargo-util = "=0.1.2"
