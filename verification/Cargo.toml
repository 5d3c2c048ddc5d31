[package]
name = "pdf_watermark"
version = "0.1.0"
edition = "2021"
publish = false

[dependencies]
ab_glyph = "=0.2.32"
lopdf = "=0.46.0"
