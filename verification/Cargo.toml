[package]
name = "cums_sekiro"
version = "0.1.0"
edition = "2021"
publish = false

[dependencies]
aes = "0.8"
base64 = "0.22"
byteorder = "1"
flate2 = "1"
ogg = "0.9"
once_cell = "1"
serde_json = "1"
