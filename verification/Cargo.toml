[package]
name = "repl_core"
version = "0.1.0"
edition = "2021"
publish = false

[dependencies]
strip-ansi-escapes = "=0.1.1"
unicode-segmentation = "1"
