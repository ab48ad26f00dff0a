[package]
name = "sudachi_tantivy"
version = "0.1.0"
edition = "2021"
publish = false

[dependencies]
tantivy-tokenizer-api = "*"
