[package]
name = "jsonscope"
version = "0.1.0"
edition = "2021"
publish = false

[dependencies]
pancurses = "*"
websocket = { version = "*", default-features = false, features = ["sync"] }
