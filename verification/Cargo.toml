[package]
name = "qvd_symbols"
version = "0.1.0"
edition = "2021"
publish = false

[dependencies]
byteorder = "*"
quick-xml = { version = "*", features = ["serialize"] }
serde = { version = "*", features = ["derive"] }
