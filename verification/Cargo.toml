[package]
name = "librarybridge"
version = "0.1.0"
edition = "2021"
publish = false

[dependencies]
eframe = { version = "0.29", default-features = false, features = ["glow", "default_fonts", "x11"] }
image = { version = "0.25", default-features = false, features = ["png"] }
rfd = "0.15"
rustix = { version = "1", features = ["fs"] }
serde_json = "1"
