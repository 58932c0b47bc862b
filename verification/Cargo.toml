[package]
name = "http_server_rs"
version = "0.1.0"
edition = "2021"
publish = false

[dependencies]
crossbeam = "=0.8.5"
io-uring = "=0.7.15"
mio = { version = "=1.2.4", features = ["os-poll", "os-ext", "net"] }
nix = { version = "=0.31.3", features = ["socket", "net"] }
