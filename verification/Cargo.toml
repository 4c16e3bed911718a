[package]
name = "git_share_obj"
version = "0.1.0"
edition = "2021"
publish = false

[dependencies]
clap = { version = "4", features = ["derive"] }
libc = "0.2"
sys-locale = "0.3"
walkdir = "2"
