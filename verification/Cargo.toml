[package]
name = "graphify"
version = "0.1.0"
edition = "2021"
publish = false

[dependencies]
anyhow = "=1.0.104"
serde = { version = "=1.0.229", features = ["derive"] }
serde_json = "=1.0.154"
serde_yaml_ng = "=0.10.0"
toml = "=1.1.8"
thiserror = "=2.0.21"
sha2 = "=0.11.1"
clap = { version = "=4.6.7", features = ["derive"] }
petgraph = "=0.8.3"
dirs = "=7.0.0"
tree-sitter = "*"
tree-sitter-python = "*"
tree-sitter-rust = "*"
tree-sitter-cpp = "*"
tree-sitter-java = "*"
tree-sitter-swift = "*"
ratatui = "*"
crossterm = "*"
rayon = "*"

[dev-dependencies]
tempfile = "=3.27.0"
