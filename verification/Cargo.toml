[package]
name = "veridian"
version = "0.1.0"
edition = "2021"
publish = false

[dependencies]
ropey = "1.6"
regex = "1"
tower-lsp = "0.20"
tokio = { version = "1", features = ["sync", "rt-multi-thread", "macros", "io-std"] }
serde = { version = "1", features = ["derive"] }
serde_yaml = "0.9"
walkdir = "2"
which = "*"
path-clean = "1"
anyhow = "1"
log = "0.4"
flexi_logger = "*"
tree-sitter = "*"
tree-sitter-systemverilog = "*"
