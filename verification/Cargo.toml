[package]
name = "pdf_converter"
version = "0.1.0"
edition = "2021"
publish = false

[dependencies]
clap = { version = "=4.6.7", features = ["derive", "wrap_help"] }
colourful-logger = "=2.0.1"
file-format = "=0.29.0"
hayro = "=0.4.0"
hayro-interpret = "=0.4.0"
hayro-svg = "=0.2.0"
