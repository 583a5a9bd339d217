[package]
name = "multipart_save"
version = "0.1.0"
edition = "2021"
publish = false

[dependencies]
tempdir = "*"
