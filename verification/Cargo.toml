[package]
name = "text_layer"
version = "0.1.0"
edition = "2021"
publish = false

[dependencies]
quick-xml = "=0.42.0"
anyhow = "=1.0.104"
clap = { version = "=4.6.7", features = ["derive"] }
mupdf = "*"
