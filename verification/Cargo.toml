[package]
name = "fastdeps"
version = "0.1.0"
edition = "2021"
publish = false

[dependencies]
home = "*"
rayon = "*"
rusqlite = { version = "*", features = ["bundled"] }
serde = { version = "*", features = ["derive"] }
serde_json = "*"
syn = { version = "*", features = ["full"] }
toml = "*"
tree-sitter = "*"
tree-sitter-rust = "*"
tree-sitter-typescript = "*"
