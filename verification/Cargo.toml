[package]
name = "memory_id_to_big"
version = "0.1.0"
edition = "2021"
publish = false

[dependencies]
itertools = "0.13"
