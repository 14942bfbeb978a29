[package]
name = "gdtools"
version = "0.1.0"
edition = "2021"
publish = false

[dependencies]
tree-sitter = "*"
tree-sitter-gdscript = "*"
clap = { version = "*", features = ["derive"] }
ignore = "*"
miette = "*"
serde = { version = "*", features = ["derive"] }
serde_json = "*"
similar = "*"
toml = "*"
once_cell = "*"
regex = "*"
