[package]
name = "doc_read"
version = "0.1.0"
edition = "2021"
publish = false

[dependencies]
anyhow = "1"
clap = { version = "4", features = ["derive"] }
csv = "1"
docx-rs = "0.4"
docx-rust = "0.1"
quick-xml = "0.37"
serde = { version = "1", features = ["derive"] }
tracing = "0.1"
tracing-appender = "0.2"
tracing-subscriber = { version = "0.3", features = ["env-filter"] }
walkdir = "2"
zip = "0.6"
