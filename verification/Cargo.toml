[package]
name = "hvcore"
version = "0.1.0"
edition = "2021"
publish = false

[dependencies]
page_table_entry = "=0.6.2"
page_table_multiarch = "=0.6.2"
memory_addr = "=0.4.1"
spin = "=0.9.9"
lazy_static = "=1.5.1"
