[package]
name = "pdf_text"
version = "0.1.0"
edition = "2021"
publish = false

[dependencies]
pdf_encoding = "*"
pdf = "*"
serde_json = "*"
clap = { version = "*", features = ["derive"] }
