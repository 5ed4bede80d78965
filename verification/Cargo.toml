[package]
name = "http_share"
version = "0.1.0"
edition = "2021"
publish = false

[dependencies]
ansi_term = "0.12"
base64 = "0.13"
chrono = "0.4"
lazy_static = "1"
md5 = "0.7"
percent-encoding = "2"
rand = "0.8"
separator = "0.4"
