[package]
name = "rusty_rogue"
version = "0.1.0"
edition = "2021"
publish = false

[dependencies]
chrono = "0.4"
rand = "0.5"
cursive = { version = "0.10", default-features = false, features = ["termion-backend"] }
