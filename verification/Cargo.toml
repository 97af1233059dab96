[package]
name = "quvc"
version = "0.1.0"
edition = "2021"
publish = false

[dependencies]
anyhow = "1"
bytes = "1"
clap = { version = "4", features = ["derive"] }
libc = "0.2"
nix = { version = "0.27", features = ["fs", "ioctl", "uio"] }
quinn = "0.10"
rustls = "0.21"
tokio = { version = "1", features = ["full"] }
