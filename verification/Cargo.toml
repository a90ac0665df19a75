[package]
name = "sea"
version = "0.1.0"
edition = "2021"
publish = false

[dependencies]
petgraph = "0.8"
tree-sitter = "0.25"
tree-sitter-c = "0.24"
clap = { version = "4.5", features = ["derive"] }
