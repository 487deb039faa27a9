[package]
name = "btrbak"
version = "0.1.0"
edition = "2021"
publish = false

[dependencies]
clap = { version = "=4.6.7", features = ["derive"] }
console = "=0.16.6"
fs4 = "0.12"
libc = "=0.2.191"
serde = { version = "=1.0.229", features = ["derive"] }
tempfile = "=3.27.0"
toml = "=1.1.8"
