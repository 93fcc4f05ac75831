[package]
name = "heph"
version = "0.1.0"
edition = "2021"
publish = false

[dependencies]
crossbeam-channel = "0.5"
log = "0.4"
mio = { version = "0.8", features = ["os-poll", "os-ext", "net"] }
mio-signals = "0.2"
serde = { version = "1", features = ["derive"] }
serde_json = "1"
socket2 = "0.5"
