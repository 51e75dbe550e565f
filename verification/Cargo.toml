[package]
name = "shork"
version = "0.1.0"
edition = "2021"
publish = false

[dependencies]
colorful = "=0.3.2"
ptree = "=0.5.2"
rustc_apfloat = "*"
