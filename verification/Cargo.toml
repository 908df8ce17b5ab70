[package]
name = "wise_ofx"
version = "0.1.0"
edition = "2021"
publish = false

[dependencies]
anyhow = "*"
chrono = "*"
clap = "*"
csv = "*"
quick-xml = "*"
rust_decimal = "*"
serde = { version = "*", features = ["derive"] }
