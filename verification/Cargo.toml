[package]
name = "memdev"
version = "0.1.0"
edition = "2021"
publish = false

[dependencies]
udev = "*"
serde = { version = "*", features = ["derive"] }
thiserror = "*"
