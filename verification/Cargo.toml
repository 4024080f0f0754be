[package]
name = "rust_parser"
version = "0.1.0"
edition = "2021"
publish = false

[dependencies]
syn = { version = "1", features = ["full", "visit"] }
proc-macro2 = "1"
