[package]
name = "lispbm_lsp"
version = "0.1.0"
edition = "2021"
publish = false

[dependencies]
serde = { version = "1", features = ["derive"] }
toml = "0.9"
tokio = { version = "1", features = ["full"] }
tower-lsp-server = "0.23"
tracing = "0.1"
tracing-subscriber = "0.3"
tree-sitter = "0.25"
pathdiff = "0.2"
glob = "0.3"
