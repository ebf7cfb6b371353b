[package]
name = "monk_chat"
version = "0.1.0"
edition = "2021"
publish = false

[dependencies]
urlencoding = "2"
rand = "0.8"
chrono = "0.4"
