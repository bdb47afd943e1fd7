[package]
name = "remote_pass"
version = "0.1.0"
edition = "2021"
publish = false

[dependencies]
clap = { version = "=3.2.25", features = ["cargo"] }
copypasta = { version = "=0.10.2", default-features = false, features = ["x11"] }
