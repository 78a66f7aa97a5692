[package]
name = "clocksync"
version = "0.2.0"
edition = "2021"
publish = false

[dependencies]
nulid = { version = "=0.10.1", default-features = false, features = ["std"] }
rand = "=0.9.5"
