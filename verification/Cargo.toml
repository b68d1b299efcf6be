[package]
name = "shell_runtime"
version = "0.1.0"
edition = "2021"
publish = false

[dependencies]
glob = "0.2"
libc = "0.2"
