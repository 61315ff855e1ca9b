[package]
name = "cuckoo-clock"
version = "0.2.4"
edition = "2021"
publish = false

[dependencies]
libfuzzer-sys = { version = "0.4", features = ["arbitrary-derive"] }
rand = "0.9"
