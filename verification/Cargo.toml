[package]
name = "crc32fast"
version = "1.1.2"
edition = "2021"
publish = false

[dev-dependencies]
quickcheck = { version = "1", default-features = false }
