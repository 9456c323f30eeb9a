[package]
name = "base_sys"
version = "0.1.0"
edition = "2021"
publish = false

[dependencies]
libc = "0.2"
log = "0.4"
protobuf = "3"
serde = { version = "1", features = ["derive"] }
serde_json = "1"
