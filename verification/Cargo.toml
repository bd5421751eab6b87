[package]
name = "gclip_cli"
version = "0.1.0"
edition = "2021"
publish = false

[dependencies]
clap = { version = "*", features = ["derive"] }
libc = "*"
serde = { version = "*", features = ["derive"] }
toml = "*"
