[package]
name = "androrust"
version = "0.1.0"
edition = "2021"

[dependencies]
byteorder = "1"
zip = { version = "*", default-features = false, features = ["deflate"] }
