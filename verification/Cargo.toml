[package]
name = "sambil"
version = "0.1.0"
edition = "2021"
publish = false

[dependencies]
unicode-segmentation = "1"
unicode-width = "*"
crossterm = "*"
portable-pty = "*"
vt100 = "*"
serde = { version = "1", features = ["derive"] }
toml = "*"
libproc = "*"
