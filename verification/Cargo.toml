[package]
name = "hf2"
version = "0.1.0"
edition = "2021"
publish = false

[dependencies]
scroll = "=0.13.0"
hidapi = { version = "=2.6.7", default-features = false, features = ["linux-native-basic-udev"] }
log = "=0.4.34"
