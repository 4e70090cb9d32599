[package]
name = "rustercam"
version = "0.1.0"
edition = "2021"
publish = false

[dependencies]
anyhow = "1"
byteorder = "1"
clap = { version = "4", features = ["derive"] }
crossterm = "0.28"
flate2 = "1"
nokhwa = { version = "0.10", features = ["input-native"] }
rand = "0.8"
terminal_size = "0.4"
