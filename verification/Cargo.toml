[package]
name = "nirius"
version = "0.1.0"
edition = "2021"
publish = false

[dependencies]
regex = "*"
toml = "*"
clap = { version = "*", features = ["derive"] }
directories = "*"
log = "*"
niri-ipc = "*"
serde = { version = "*", features = ["derive"] }
serde_json = "*"
