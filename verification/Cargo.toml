[package]
name = "tetris_engine"
version = "0.1.0"
edition = "2021"
publish = false

[dependencies]
rand = "=0.8.8"
tui = { version = "=0.19.0", default-features = false, features = ["termion"] }
termion = "=1.5.6"
