[package]
name = "rerics"
version = "0.1.0"
edition = "2021"
publish = false

[dependencies]
encoding_rs = "=0.8.44"
unicode-width = "=0.2.3"
serde = { version = "=1.0.229", features = ["derive"] }
serde_json = "=1.0.154"
image = { version = "=0.25.10", default-features = false, features = ["png"] }
zip = { version = "=9.2.2", default-features = false, features = ["deflate"] }
tar = { version = "=0.4.46", default-features = false }
lzma-rust2 = "=0.25.0"
sevenz-rust2 = { version = "=0.24.2", default-features = false, features = ["compress"] }
tiny_http = "=0.12.0"
