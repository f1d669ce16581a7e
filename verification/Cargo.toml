[package]
name = "zircon"
version = "0.1.0"
edition = "2021"
publish = false

[dependencies]
crossbeam-channel = "*"
env_logger = "*"
ignore = "*"
log = "*"
lsp-server = "*"
lsp-types = "*"
serde = { version = "*", features = ["derive"] }
serde_json = "*"
tree-sitter = "*"
tree-sitter-crystal = "*"
zed_extension_api = "*"

[dev-dependencies]
tempfile = "*"
