[package]
name = "move_language_server"
version = "0.1.0"
edition = "2021"
publish = false

[dependencies]
serde_json = "*"
lsp-server = "*"
lsp-types = "*"
crossbeam-channel = "*"
threadpool = "*"
anyhow = "*"
log = "*"
