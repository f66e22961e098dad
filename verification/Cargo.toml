[package]
name = "xlsxgrid"
version = "0.1.0"
edition = "2021"
publish = false

[dependencies]
zip = "*"
quick-xml = "*"
