[package]
name = "hangul_vocab"
version = "0.1.0"
edition = "2021"
publish = false

[dependencies]
hangeul = "*"
csv = "1"
serde = { version = "1", features = ["derive"] }
