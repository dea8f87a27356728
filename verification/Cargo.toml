[package]
name = "pdf-to-markdown"
version = "0.4.0"
edition = "2021"
publish = false

[dependencies]
aes-gcm = "0.10"
async-trait = "0.1"
chrono = "0.4"
clap = { version = "4", features = ["derive"] }
colored = "2"
directories = "5"
image = { version = "0.25", default-features = false, features = ["jpeg"] }
indicatif = "0.17"
lopdf = "0.34"
pdfium-auto = "*"
pdfium-render = "0.8"
rand = "0.8"
regex = "1"
reqwest = { version = "0.12", default-features = false, features = ["json", "multipart", "rustls-tls"] }
serde = { version = "1", features = ["derive"] }
serde_json = "1"
serde_yaml = "0.9"
sha2 = "0.10"
tempfile = "3"
tokio = { version = "1", features = ["full"] }
walkdir = "2"
zip = { version = "2", default-features = false, features = ["deflate"] }
