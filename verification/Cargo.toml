[package]
name = "pdfsnap"
version = "0.1.0"
edition = "2021"
publish = false

[dependencies]
lopdf = "*"
rustybuzz = "*"
crc32fast = "*"
flate2 = "*"
image = "*"
uuid = { version = "*", features = ["v4", "v7"] }
serde = { version = "*", features = ["derive"] }
serde_json = "*"
