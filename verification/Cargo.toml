[package]
name = "zxc"
version = "1.0.0"
edition = "2021"
publish = false
