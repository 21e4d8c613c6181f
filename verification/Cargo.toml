[package]
name = "buildy"
version = "0.1.0"
edition = "2021"
publish = false

[dependencies]
crossbeam = "0.8"
duct = "0.13"
notify = "4.0"
rust-crypto = "0.2"
serde = { version = "1.0", features = ["derive"] }
serde_yaml = "0.8"
termcolor = "1"
