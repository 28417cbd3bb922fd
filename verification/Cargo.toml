[package]
name = "vjoy"
version = "0.1.0"
edition = "2021"
publish = false

[dependencies]
anyhow = "*"
clap = { version = "*", features = ["derive"] }
evdev = "*"
ron = "*"
serde = { version = "*", features = ["derive"] }
