[package]
name = "rnc"
version = "0.1.1"
edition = "2021"
publish = false

[dependencies]
clap = "2"
content_inspector = "*"
encoding = "0.2"
log = "0.4"
simplelog = "*"
