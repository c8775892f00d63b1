[package]
name = "trashdoctor"
version = "0.1.0"
edition = "2021"
publish = false

[dependencies]
chrono = "=0.4.45"
walkdir = "=2.5.0"
iced = { version = "=0.10.0", default-features = false }
tokio = { version = "=1.54.1", features = ["time"] }
trash = "1"
rfd = { version = "0.15", default-features = false, features = ["xdg-portal", "tokio"] }
