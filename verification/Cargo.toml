[package]
name = "iconimation"
version = "0.1.0"
edition = "2021"
publish = false

[dependencies]
skrifa = "=0.48.0"
kurbo = "=0.13.1"
serde = { version = "=1.0.229", features = ["derive"] }
serde_json = "=1.0.151"
clap = { version = "=4.6.7", features = ["derive"] }
write-fonts = "=0.54.0"
