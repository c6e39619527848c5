[package]
name = "l76k_gps"
version = "0.1.0"
edition = "2021"
publish = false

[dependencies]
chrono = { version = "0.4", default-features = false }
nmea = "*"
embassy-time = "*"
embassy-nrf = { version = "*", features = ["nrf52840"] }
