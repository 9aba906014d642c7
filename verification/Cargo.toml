[package]
name = "ts_gen"
version = "0.1.0"
edition = "2021"
publish = false

[dependencies]
convert_case = "=0.12.0"
indexmap = "=2.14.2"
oxc_ast = "0.143"
oxc_allocator = "0.143"
