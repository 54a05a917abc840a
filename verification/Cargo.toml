[package]
name = "jsonxf"
version = "1.1.1"
edition = "2021"
publish = false

[dependencies]
getopts = "0.2"
