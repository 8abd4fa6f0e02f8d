[package]
name = "ui_text"
version = "0.1.0"
edition = "2021"
publish = false

[dependencies]
markdown = "=1.0.0"
unicode-segmentation = "=1.13.3"
unicode-linebreak = "=0.1.5"
ratex-parser = "=0.1.15"
