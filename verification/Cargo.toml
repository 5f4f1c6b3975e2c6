[package]
name = "lox_interpreter"
version = "0.1.0"
edition = "2021"
publish = false

[dependencies]
anyhow = "1"
strum = { version = "0.26", features = ["derive"] }
thiserror = "1"
