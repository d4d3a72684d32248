[package]
name = "sheetcore"
version = "0.1.0"
edition = "2021"
publish = false

[dependencies]
chrono = { version = "=0.4.45", default-features = false, features = ["std", "clock"] }
ndarray = "=0.15.6"

[dev-dependencies]
qndr = "*"
