[package]
name = "epub_unpack"
version = "0.1.0"
edition = "2021"
publish = false

[dependencies]
zip = { version = "=9.0.5", default-features = false, features = ["deflate"] }
serde = { version = "=1.0.229", features = ["derive"] }
serde-xml-rs = "=0.8.2"
