[package]
name = "statusview"
version = "0.1.0"
edition = "2021"
publish = false

[dependencies]
chrono = "=0.4.45"
chrono-humanize = "=0.2.3"
gloo-net = "=0.7.0"
gloo-timers = { version = "=0.4.0", features = ["futures"] }
