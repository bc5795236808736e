[package]
name = "ast_dump"
version = "0.1.0"
edition = "2021"
publish = false

[dependencies]
clap = "2"
libloading = "*"
tree-sitter = "0.19"
