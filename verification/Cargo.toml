[package]
name = "smart_home"
version = "0.1.0"
edition = "2021"
publish = false

[dependencies]
string-builder = "*"
serde = { version = "1", features = ["derive"] }
thiserror = "1"
