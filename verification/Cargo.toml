[package]
name = "starlark"
version = "0.1.0"
edition = "2021"
publish = false

[dependencies]
anyhow = "1"
codemap = "0.1"
gazebo = "*"
indexmap = "1"
lalrpop-util = "0.19"
once_cell = "1"
