[package]
name = "nil"
version = "0.1.0"
edition = "2021"
publish = false

[dependencies]
indexmap = "=1.9.3"
la-arena = "=0.3.1"
rowan = "=0.15.19"
text-size = "=1.1.1"
lsp-types = "=0.93.2"
