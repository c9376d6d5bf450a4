[package]
name = "torrust_bencode2json"
version = "0.1.0"
edition = "2021"
publish = false

[dependencies]
hex = "0.4"
clap = "4"
