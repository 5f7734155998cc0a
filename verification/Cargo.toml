[package]
name = "pdf_notes"
version = "0.1.0"
edition = "2021"
publish = false

[dependencies]
base64 = "*"
lopdf = "*"
serde = { version = "*", features = ["derive"] }
