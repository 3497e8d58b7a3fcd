[package]
name = "gurk"
version = "0.3.0"
edition = "2021"
publish = false

[dependencies]
chrono = { version = "0.4", default-features = false, features = ["clock", "std"] }
itertools = "0.10"
textwrap = "=0.16.0"
tui = { version = "0.19", default-features = false }
unicode-width = "=0.1.10"
uuid = "1"
