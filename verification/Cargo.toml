[package]
name = "edek"
version = "0.1.0"
edition = "2021"
publish = false

[dependencies]
unicode-segmentation = "*"
termion = "*"
log = "*"
simple-logging = "*"
