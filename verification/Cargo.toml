[package]
name = "cod"
version = "0.1.0"
edition = "2021"
publish = false

[dependencies]
tree-sitter = "*"
tree-sitter-c = "*"
tree-sitter-cpp = "*"
tree-sitter-rust = "*"
tree-sitter-zig = "*"
streaming-iterator = "*"
glob = "*"
clap = "*"
