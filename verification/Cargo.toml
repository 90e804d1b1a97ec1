[package]
name = "prpr"
version = "0.1.0"
edition = "2021"
publish = false

[dependencies]
byteorder = "=1.5.0"
csv = "=1.4.0"
serde = { version = "1", features = ["derive"] }
serde_json = "1"
zip = { version = "=2.6.1", default-features = false, features = ["deflate"] }

[dev-dependencies]
unic-langid = "0.9"
