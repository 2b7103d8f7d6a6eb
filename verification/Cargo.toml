[package]
name = "refera"
version = "0.1.0"
edition = "2021"
publish = false

[dependencies]
chrono = { version = "0.4", default-features = false, features = ["alloc", "std"] }
urlencoding = "2"
ctrlc = "3"
threadpool = "1"
once_cell = "1"
