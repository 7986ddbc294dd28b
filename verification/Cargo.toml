[package]
name = "ssl_sim"
version = "0.1.0"
edition = "2021"
publish = false

[dependencies]
prost = "*"
prost-types = "*"
flate2 = "*"
anyhow = "*"
clap = { version = "*", features = ["derive"] }
crossbeam-channel = "*"
eframe = { version = "*", default-features = false, features = ["default_fonts", "glow", "x11"] }
serde = { version = "*", features = ["derive"] }
serde_json = "*"
socket2 = "*"
tracing = "*"
