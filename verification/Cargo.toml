[package]
name = "file_explorer"
version = "0.1.0"
edition = "2021"
publish = false

[dependencies]
regex = "=1.13.1"
slint = { version = "=1.18.1", default-features = false, features = ["std", "compat-1-2", "image-default-formats"] }
i-slint-core = { version = "=1.18.1", default-features = false, features = ["image-decoders"] }
