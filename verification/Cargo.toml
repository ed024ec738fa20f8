[package]
name = "hvm_lang_term"
version = "0.1.0"
edition = "2021"
publish = false

[dependencies]
hvm-core = "=0.1.20"
indexmap = "=2.14.2"
anyhow = "=1.0.104"
