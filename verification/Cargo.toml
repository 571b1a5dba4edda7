[package]
name = "kakoune_lsp"
version = "0.1.0"
edition = "2021"
publish = false

[dependencies]
regex = "*"
lsp-types = "*"
serde = { version = "*", features = ["derive"] }
serde_json = "*"
serde_repr = "*"
url = "*"
jsonrpc-core = "*"
