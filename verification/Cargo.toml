[package]
name = "hot"
version = "0.1.0"
edition = "2021"
publish = false

[dependencies]
ansi_term = "*"
crossterm = "*"
mio = { version = "*", features = ["os-poll", "os-ext"] }
