[package]
name = "grouped_storage"
version = "0.1.0"
edition = "2021"
publish = false

[dependencies]
specs = { version = "0.16.1", default-features = false }
