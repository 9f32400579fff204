[package]
name = "binformat"
version = "0.1.0"
edition = "2021"
publish = false

[dependencies]
base64 = "0.13"
byteorder = "1"
flate2 = "1"
serde_yaml = "0.9"
syn = "1"
thiserror = "1"
