[package]
name = "wm_core"
version = "0.1.0"
edition = "2021"
publish = false

[dependencies]
regex = "=1.13.1"
sha2 = "=0.10.9"
hex = "=0.4.3"
tree-sitter = "=0.27.1"
tree-sitter-rust = "=0.24.2"
tree-sitter-typescript = "=0.23.2"
tree-sitter-python = "=0.25.0"
tree-sitter-go = "=0.25.0"
tree-sitter-html = "=0.23.2"
tree-sitter-svelte-ng = "=1.0.2"
streaming-iterator = "=0.1.9"
serde = { version = "=1.0.229", features = ["derive"] }
serde_json = "=1.0.154"
serde_yaml = "=0.9.34"
walkdir = "=2.5.0"
anyhow = "=1.0.104"
petgraph = { version = "=0.6.5", default-features = false, features = ["stable_graph"] }
chrono = { version = "0.4", default-features = false, features = ["std"] }
