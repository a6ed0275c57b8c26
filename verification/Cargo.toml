[package]
name = "hplink"
version = "0.1.0"
edition = "2021"
publish = false

[dependencies]
clap = { version = "=4.6.7", features = ["derive"] }
console = "=0.16.6"
indicatif = "=0.16.2"
serialport = { version = "=4.10.1", default-features = false }
