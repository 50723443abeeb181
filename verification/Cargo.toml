[package]
name = "candbc_parser"
version = "0.1.0"
edition = "2021"
publish = false

[dependencies]
slotmap = "1"
encoding_rs = "0.8"
chrono = "0.4"
quick-xml = "*"
autosar-data = "*"
