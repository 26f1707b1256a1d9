[package]
name = "graph_checker"
version = "0.1.0"
edition = "2021"
publish = false

[dependencies]
tree-sitter = "=0.20.10"
thiserror = "=1.0.69"

[dev-dependencies]
tree-sitter-json = "0.20"
