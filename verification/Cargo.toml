[package]
name = "se"
version = "0.1.0"
edition = "2021"
publish = false

[dependencies]
unicode-segmentation = "*"
unicode-width = "*"
seahash = "*"
ansi_term = "*"
crossterm = "*"
dialect = "*"
syntax-rust = "*"
anyhow = "*"
structopt = "*"
