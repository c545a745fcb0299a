[package]
name = "amber_core"
version = "0.1.0"
edition = "2021"
publish = false

[dependencies]
heraclitus-compiler = "*"
include_dir = "*"
itertools = "*"
