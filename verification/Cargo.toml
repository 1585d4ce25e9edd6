[package]
name = "love_api"
version = "0.1.0"
edition = "2021"
publish = false

[dependencies]
sha2 = "=0.10.9"
anyhow = "=1.0.104"
lewton = "=0.10.2"
zip = { version = "=2.6.1", default-features = false, features = ["deflate"] }
crossterm = "=0.28.1"
libc = "=0.2.191"
parking_lot = "=0.12.5"

[dev-dependencies]
mlua = { version = "0.10", features = ["luajit", "vendored"] }
