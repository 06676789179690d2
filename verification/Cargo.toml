[package]
name = "winter_term"
version = "0.1.0"
edition = "2021"
publish = false

[dependencies]
regex = "1"
winit = "0.30"
arboard = { version = "3", default-features = false }
notify = "*"
portable-pty = "*"
open = "5"
