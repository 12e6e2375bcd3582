[package]
name = "svg2pdf"
version = "0.13.0"
edition = "2021"
publish = false

[dependencies]
fontdb = "0.23"
pdf-writer = "0.13"
resvg = "0.45"
tiny-skia = "0.11"
usvg = "0.45"
