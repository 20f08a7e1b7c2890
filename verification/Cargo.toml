[package]
name = "qaid"
version = "0.1.0"
edition = "2021"
publish = false

[dependencies]
calamine = "=0.38.0"
chrono = "=0.4.45"
csv = "=1.4.0"
dateparser = "=0.3.1"
