[package]
name = "poker_rs"
version = "0.1.0"
edition = "2021"
publish = false

[dependencies]
once_cell = "1"
regex = "1"
serde = { version = "1", features = ["derive"] }
thiserror = "1"
