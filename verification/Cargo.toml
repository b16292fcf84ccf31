[package]
name = "thok"
version = "0.1.0"
edition = "2021"
publish = false

[dependencies]
itertools = "0.10"
unicode-width = "0.1"
tui = { version = "0.19", default-features = false }
