[package]
name = "rust_lib_demo"
version = "0.1.0"
edition = "2021"
publish = false

[dependencies]
cty = "0.2"
heapless = "0.8"
linked_list_allocator = "0.10"
