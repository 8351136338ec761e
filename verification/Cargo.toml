[package]
name = "birei"
version = "0.1.0"
edition = "2021"
publish = false

[dependencies]
pulldown-cmark = "*"
html2md = "*"
qrcodegen = "1"
uuid = "1"
