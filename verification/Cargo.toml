[package]
name = "rtop_dev"
version = "1.1.0"
edition = "2021"
publish = false

[dependencies]
human-sort = "*"
