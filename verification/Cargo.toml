[package]
name = "websocket_server"
version = "0.1.0"
edition = "2021"
publish = false

[dependencies]
sha1 = "*"
rustc-serialize = "*"
mio = { version = "*", features = ["os-poll", "net"] }
http-muncher = "*"
