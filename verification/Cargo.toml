[package]
name = "gpiodemo"
version = "0.1.0"
edition = "2021"
publish = false

[dependencies]
serialport = { version = "4", default-features = false }
chrono = { version = "0.4", default-features = false, features = ["clock"] }
