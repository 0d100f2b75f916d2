[package]
name = "tarpaulin"
version = "0.1.0"
edition = "2021"
publish = false

[dependencies]
chrono = "=0.4.45"
coveralls-api = "=0.3.3"
curl = "=0.4.51"
horrorshow = "=0.8.9"
