[package]
name = "ddr"
version = "0.1.0"
edition = "2021"
publish = false

[dependencies]
circular-buffer = "=1.2.1"
cod = "=9.0.5"
errata = "=2.1.1"
size_format = "=1.0.2"
