[package]
name = "css_tokenizer"
version = "0.1.0"
edition = "2021"
publish = false

[dependencies]
memchr = "2"
smol_str = "0.3"

[dev-dependencies]
regex = "1"
