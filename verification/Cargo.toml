[package]
name = "cat_engine"
version = "0.2.0"
edition = "2021"
publish = false

[dependencies]
slotmap = "1"
