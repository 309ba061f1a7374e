[package]
name = "w5500_host"
version = "0.1.0"
edition = "2021"
publish = false

[dependencies]
defmt = "=1.2.0"
embedded-nal = "0.8.0"
