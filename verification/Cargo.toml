[package]
name = "brassfibre"
version = "0.1.0"
edition = "2021"
publish = false

[dependencies]
nullvec = "*"
num = "*"
itertools = "*"
multimap = "*"
