[package]
name = "rust_companion"
version = "0.1.0"
edition = "2021"
publish = false

[dependencies]
sysinfo = "*"
dotenv = "*"
