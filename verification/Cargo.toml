[package]
name = "option_desk"
version = "0.1.0"
edition = "2021"
publish = false

[dependencies]
anyhow = "1"
jiff = "0.2"
log = "0.4"
rust_decimal = "1"
serde = { version = "1", features = ["derive"] }
serde_json = "1"
