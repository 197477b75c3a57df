[package]
name = "mcface"
version = "0.1.0"
edition = "2021"
publish = false

[dependencies]
png = "0.18"
fastrand = "2"
serde_json = "1"
base64 = "0.22"
ureq = "3"
clap = { version = "4", features = ["derive"] }
libc = "0.2"
