[package]
name = "reconf"
version = "0.1.0"
edition = "2021"
publish = false

[dependencies]
colored = "2"
compact_str = "0.7"
gumdrop = "0.8"
indexmap = "2"
regex = "1"
rev_lines = "0.2"
