[package]
name = "json2csv"
version = "0.1.0"
edition = "2021"
publish = false

[dependencies]
clap = "2"
csv = "1"
flatten_json = "*"
linked_hash_set = "0.1"
serde_json = "1"
