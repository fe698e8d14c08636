[package]
name = "bindgen_codegen"
version = "0.1.0"
edition = "2021"
publish = false

[dependencies]
syntex_syntax = "0.50"
aster = { version = "0.34", features = ["with-syntex"] }
