[package]
name = "record_inclusion"
version = "0.1.0"
edition = "2021"
publish = false

[dependencies]
indexmap = "2"
once_cell = "1"
