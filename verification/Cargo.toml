[package]
name = "punkos"
version = "0.1.0"
edition = "2021"
publish = false

[dependencies]
bootloader_api = "=0.11.17"
x86_64 = { version = "=0.15.5", default-features = false, features = ["instructions"] }
spin = "=0.9.9"
pic8259 = "=0.11.0"
