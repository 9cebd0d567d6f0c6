[package]
name = "filler_server"
version = "0.1.0"
edition = "2021"
publish = false

[dependencies]
sha1 = "0.6"
rand = "0.7"
json = "0.12"
httparse = "1"
websocket = { version = "*", default-features = false, features = ["sync"] }
