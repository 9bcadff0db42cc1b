[package]
name = "astrs_data"
version = "0.1.0"
edition = "2021"
publish = false

[dependencies]
arrow-array = "59"
arrow-buffer = "59"
arrow-data = "59"
arrow-schema = "59"
thiserror = "2"
