[package]
name = "vidyut"
version = "0.1.0"
edition = "2021"
publish = false

[dependencies]
multimap = "*"
conllu = "*"
udgraph = "*"
csv = "*"
glob = "*"
