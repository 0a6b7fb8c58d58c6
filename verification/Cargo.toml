[package]
name = "wicci_shim"
version = "0.1.0"
edition = "2021"
publish = false

[dependencies]
regex = "*"
getopts = "*"
tiny_http = "*"
postgres = "*"
log = "*"
env_logger = "*"
lazy_static = "*"
