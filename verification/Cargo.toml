[package]
name = "bump_allocator"
version = "0.1.0"
edition = "2021"
publish = false

[dependencies]
axallocator = "*"
arceos_api = "0.3.0-preview.3"
hashbrown = "0.14"
