[package]
name = "html_highlight"
version = "0.1.0"
edition = "2021"
publish = false

[dependencies]
lazy_static = "=1.5.1"
rutie = "=0.8.4"
tree-sitter-highlight = "=0.20.1"
tree-sitter-loader = "=0.20.0"

[dev-dependencies]
tree-sitter-javascript = "=0.20.4"
tree-sitter-rust = "=0.20.4"
