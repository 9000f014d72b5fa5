[package]
name = "dbase"
version = "0.1.0"
edition = "2021"
publish = false

[dependencies]
byteorder = "1"
chrono = { version = "0.4", default-features = false }
serde = { version = "1", features = ["derive"] }
