[package]
name = "view_tree_lsp"
version = "0.1.0"
edition = "2021"
publish = false

[dependencies]
tokio = { version = "1", features = ["io-std", "rt-multi-thread", "macros"] }
tower-lsp = "0.20"
lsp-types = "0.94"
walkdir = "2"
