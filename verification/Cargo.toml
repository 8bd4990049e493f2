[package]
name = "codemetrics"
version = "0.1.0"
edition = "2021"
publish = false

[dependencies]
tree-sitter = "*"
tree-sitter-rust = "*"
tree-sitter-javascript = "*"
tree-sitter-typescript = "*"
tree-sitter-python = "*"
tree-sitter-go = "*"
serde = { version = "*", features = ["derive"] }
serde_json = "*"
clap = { version = "*", features = ["derive"] }
walkdir = "*"
ignore = "*"
rayon = "*"
comfy-table = "*"
chrono = "*"
handlebars = "*"
indicatif = "*"
